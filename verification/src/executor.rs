//! The batch executor: one action invocation per package to act on,
//! at most a fixed number in flight at once, one outcome per package —
//! none dropped, none duplicated. A failed invocation yields a failure
//! outcome for its package alone.

use vstd::multiset::Multiset;
use vstd::prelude::*;

use crate::package_info::PackageInfo;

verus! {

broadcast use vstd::seq_lib::group_to_multiset_ensures;

/// The concurrency limit of a batch is not positive: the whole batch
/// is rejected before any work starts.
#[derive(Clone, Copy, PartialEq, Eq, Structural, Debug)]
pub struct InvalidConcurrency;

/// One package's result: the captured output on success, the reason on
/// failure.
pub struct InstallOutcome {
    pub package: PackageInfo,
    pub result: Result<String, String>,
}

/// Runs a whole batch to completion: one `action` invocation per entry
/// of `to_install`, one outcome collected per entry. A limit of zero is
/// a configuration error, rejected before any invocation. A failure of
/// one invocation is recorded in that entry's outcome and touches no
/// other entry. Invocations run here one after another, which stays
/// within any positive limit; a host that wants the full `limit`
/// workers drives the batch through `BatchRun` instead.
pub fn run_batch<F: Fn(PackageInfo) -> Result<String, String>>(
    to_install: &Vec<PackageInfo>,
    concurrency_limit: usize,
    action: F,
) -> (r: Result<Vec<InstallOutcome>, InvalidConcurrency>)
    requires
        forall|k: int| 0 <= k < to_install@.len() ==> call_requires(action, (to_install@[k],)),
    ensures
        match r {
            Ok(outcomes) => {
                &&& concurrency_limit >= 1
                &&& outcomes@.len() == to_install@.len()
                &&& forall|k: int|
                    0 <= k < outcomes@.len() ==> (#[trigger] outcomes@[k]).package
                        == to_install@[k]
                &&& forall|k: int|
                    0 <= k < outcomes@.len() ==> call_ensures(
                        action,
                        (to_install@[k],),
                        (#[trigger] outcomes@[k]).result,
                    )
            },
            Err(_) => concurrency_limit == 0,
        },
{
    if concurrency_limit == 0 {
        return Err(InvalidConcurrency);
    }
    let mut outcomes: Vec<InstallOutcome> = Vec::new();
    let n = to_install.len();
    let mut i: usize = 0;
    while i < n
        invariant
            forall|k: int| 0 <= k < to_install@.len() ==> call_requires(action, (to_install@[k],)),
            0 <= i <= n == to_install@.len(),
            outcomes@.len() == i,
            forall|k: int|
                0 <= k < i ==> (#[trigger] outcomes@[k]).package == to_install@[k],
            forall|k: int|
                0 <= k < i ==> call_ensures(
                    action,
                    (to_install@[k],),
                    (#[trigger] outcomes@[k]).result,
                ),
        decreases n - i,
    {
        let package = to_install[i].clone();
        let result = action(to_install[i].clone());
        outcomes.push(InstallOutcome { package, result });
        i = i + 1;
    }
    Ok(outcomes)
}

/// The bookkeeping of one running batch: the queue of packages to act
/// on, how many invocations are in flight, and the outcomes recorded
/// so far. The executor's host dispatches work and records outcomes
/// through it; the bookkeeping guarantees that at most `limit`
/// invocations are in flight, that every package is dispatched at most
/// once and in queue order, and that the finished batch holds exactly
/// one outcome per queued package.
pub struct BatchRun {
    queue: Vec<PackageInfo>,
    dispatched: usize,
    in_flight: usize,
    limit: usize,
    outcomes: Vec<InstallOutcome>,
    flying: Ghost<Multiset<PackageInfo>>,
}

impl BatchRun {
    /// The queue of the batch, in submission order.
    pub closed spec fn spec_queue(self) -> Seq<PackageInfo> {
        self.queue@
    }

    /// How many queue entries have been handed out so far.
    pub closed spec fn spec_dispatched(self) -> int {
        self.dispatched as int
    }

    /// How many invocations are in flight: dispatched and not yet
    /// recorded.
    pub closed spec fn spec_in_flight(self) -> int {
        self.in_flight as int
    }

    /// The concurrency limit the batch was made with.
    pub closed spec fn spec_limit(self) -> int {
        self.limit as int
    }

    /// The outcomes recorded so far, in recording order.
    pub closed spec fn spec_outcomes(self) -> Seq<InstallOutcome> {
        self.outcomes@
    }

    /// The packages of the invocations in flight.
    pub closed spec fn spec_flying(self) -> Multiset<PackageInfo> {
        self.flying@
    }

    /// The batch's invariant: the in-flight count never passes the
    /// limit, and the recorded outcomes together with the in-flight
    /// packages are exactly the dispatched prefix of the queue — one
    /// per entry, none lost, none duplicated.
    pub closed spec fn wf(self) -> bool {
        &&& self.limit >= 1
        &&& self.dispatched <= self.queue@.len()
        &&& self.in_flight <= self.limit
        &&& self.in_flight == self.flying@.len()
        &&& self.outcomes@.len() + self.in_flight == self.dispatched
        &&& self.outcomes@.map_values(|o: InstallOutcome| o.package).to_multiset().add(
            self.flying@,
        ) == self.queue@.take(self.dispatched as int).to_multiset()
    }

    /// Accepts the batch, or rejects a limit of zero before any work.
    pub fn new(queue: Vec<PackageInfo>, concurrency_limit: usize) -> (r: Result<
        BatchRun,
        InvalidConcurrency,
    >)
        ensures
            match r {
                Ok(b) => {
                    &&& concurrency_limit >= 1
                    &&& b.wf()
                    &&& b.spec_queue() == queue@
                    &&& b.spec_limit() == concurrency_limit
                    &&& b.spec_dispatched() == 0
                    &&& b.spec_in_flight() == 0
                    &&& b.spec_outcomes() == Seq::<InstallOutcome>::empty()
                },
                Err(_) => concurrency_limit == 0,
            },
    {
        if concurrency_limit == 0 {
            return Err(InvalidConcurrency);
        }
        let b = BatchRun {
            queue,
            dispatched: 0,
            in_flight: 0,
            limit: concurrency_limit,
            outcomes: Vec::new(),
            flying: Ghost(Multiset::empty()),
        };
        proof {
            assert(b.queue@.take(0) =~= Seq::<PackageInfo>::empty());
            assert(b.outcomes@.map_values(|o: InstallOutcome| o.package) =~= Seq::<
                PackageInfo,
            >::empty());
            assert(Seq::<PackageInfo>::empty().to_multiset().add(Multiset::empty())
                =~= Seq::<PackageInfo>::empty().to_multiset());
        }
        Ok(b)
    }

    /// Hands out the next queue entry when one is pending and a worker
    /// slot is free; `None` when the queue is drained or the limit is
    /// reached.
    pub fn next_to_dispatch(&mut self) -> (r: Option<PackageInfo>)
        requires
            old(self).wf(),
        ensures
            final(self).wf(),
            final(self).spec_queue() == old(self).spec_queue(),
            final(self).spec_limit() == old(self).spec_limit(),
            match r {
                Some(p) => {
                    &&& old(self).spec_dispatched() < old(self).spec_queue().len()
                    &&& old(self).spec_in_flight() < old(self).spec_limit()
                    &&& p == old(self).spec_queue()[old(self).spec_dispatched()]
                    &&& final(self).spec_dispatched() == old(self).spec_dispatched() + 1
                    &&& final(self).spec_in_flight() == old(self).spec_in_flight() + 1
                    &&& final(self).spec_outcomes() == old(self).spec_outcomes()
                    &&& final(self).spec_flying() == old(self).spec_flying().insert(p)
                },
                None => {
                    &&& (old(self).spec_dispatched() == old(self).spec_queue().len() || old(
                        self,
                    ).spec_in_flight() == old(self).spec_limit())
                    &&& *final(self) == *old(self)
                },
            },
    {
        if self.dispatched < self.queue.len() && self.in_flight < self.limit {
            let p = self.queue[self.dispatched].clone();
            self.dispatched = self.dispatched + 1;
            self.in_flight = self.in_flight + 1;
            proof {
                self.flying@ = self.flying@.insert(p);
                assert(self.queue@.take(self.dispatched as int) =~= self.queue@.take(
                    self.dispatched - 1,
                ).push(p));
                assert(self.outcomes@.map_values(|o: InstallOutcome| o.package).to_multiset().add(
                    self.flying@,
                ) =~= self.queue@.take(self.dispatched as int).to_multiset());
            }
            Some(p)
        } else {
            None
        }
    }

    /// Records one completed invocation's outcome; outcomes may arrive
    /// in any order.
    pub fn record_outcome(&mut self, outcome: InstallOutcome)
        requires
            old(self).wf(),
            old(self).spec_in_flight() > 0,
            old(self).spec_flying().contains(outcome.package),
        ensures
            final(self).wf(),
            final(self).spec_queue() == old(self).spec_queue(),
            final(self).spec_limit() == old(self).spec_limit(),
            final(self).spec_dispatched() == old(self).spec_dispatched(),
            final(self).spec_in_flight() == old(self).spec_in_flight() - 1,
            final(self).spec_outcomes() == old(self).spec_outcomes().push(outcome),
            final(self).spec_flying() == old(self).spec_flying().remove(outcome.package),
    {
        proof {
            self.flying@ = self.flying@.remove(outcome.package);
        }
        self.in_flight = self.in_flight - 1;
        self.outcomes.push(outcome);
        proof {
            assert(self.outcomes@.map_values(|o: InstallOutcome| o.package) =~= old(
                self,
            ).outcomes@.map_values(|o: InstallOutcome| o.package).push(outcome.package));
            assert(self.outcomes@.map_values(|o: InstallOutcome| o.package).to_multiset().add(
                self.flying@,
            ) =~= self.queue@.take(self.dispatched as int).to_multiset());
        }
    }

    /// Whether every queue entry has been dispatched and every outcome
    /// recorded.
    pub fn is_complete(&self) -> (r: bool)
        ensures
            r == (self.spec_dispatched() == self.spec_queue().len() && self.spec_in_flight() == 0),
    {
        self.dispatched == self.queue.len() && self.in_flight == 0
    }

    /// Takes the finished batch's outcomes: exactly one per queued
    /// package — the packages of the outcomes are the queued packages,
    /// as a multiset.
    pub fn into_outcomes(self) -> (r: Vec<InstallOutcome>)
        requires
            self.wf(),
            self.spec_dispatched() == self.spec_queue().len(),
            self.spec_in_flight() == 0,
        ensures
            r@ == self.spec_outcomes(),
            r@.len() == self.spec_queue().len(),
            r@.map_values(|o: InstallOutcome| o.package).to_multiset()
                == self.spec_queue().to_multiset(),
    {
        proof {
            assert(self.flying@ =~= Multiset::<PackageInfo>::empty()) by {
                vstd::multiset::lemma_multiset_empty_len(self.flying@);
            }
            assert(self.outcomes@.map_values(|o: InstallOutcome| o.package).to_multiset().add(
                Multiset::<PackageInfo>::empty(),
            ) =~= self.outcomes@.map_values(|o: InstallOutcome| o.package).to_multiset());
            assert(self.queue@.take(self.dispatched as int) =~= self.queue@);
        }
        self.outcomes
    }
}

} // verus!
