//! The coordinator: gathers the workers' reports, keeps the primes found up
//! to the ceiling, and finishes once every worker has gone past it.

use vstd::prelude::*;
use crate::config::Config;
use crate::natural::Natural;
use crate::natural::less_or_equal;
use crate::primality::values;
use crate::worker::Report;
use crate::worker::candidate_of;

verus! {

/// One report as the coordinator saw it: worker, candidate, verdict.
pub type Entry = (u32, nat, bool);

/// The primes kept after the reports `h`: two, then each candidate up to
/// the ceiling with a prime verdict, in the order received.
pub open spec fn accepted(h: Seq<Entry>, ceiling: nat) -> Seq<nat>
    decreases h.len(),
{
    if h.len() == 0 {
        seq![2]
    } else {
        let e = h.last();
        let rest = accepted(h.drop_last(), ceiling);
        if e.2 && e.1 <= ceiling {
            rest.push(e.1)
        } else {
            rest
        }
    }
}

/// Whether worker `w` has reported a candidate above the ceiling.
pub open spec fn passed_ceiling(h: Seq<Entry>, ceiling: nat, w: u32) -> bool {
    exists|j: int| 0 <= j < h.len() && (#[trigger] h[j]).0 == w && h[j].1 > ceiling
}

/// Whether every worker in `[1, worker_count]` has gone past the ceiling.
pub open spec fn all_passed(h: Seq<Entry>, ceiling: nat, worker_count: u32) -> bool {
    forall|w: u32| 1 <= w <= worker_count ==> #[trigger] passed_ceiling(h, ceiling, w)
}

/// A report from a worker that has already gone past the ceiling changes
/// no worker's progress, so repeated reports never disturb termination.
pub proof fn lemma_repeated_report_idempotent(h: Seq<Entry>, ceiling: nat, worker_count: u32, e: Entry)
    requires
        passed_ceiling(h, ceiling, e.0),
    ensures
        forall|w: u32| #[trigger] passed_ceiling(h.push(e), ceiling, w) == passed_ceiling(h, ceiling, w),
        all_passed(h.push(e), ceiling, worker_count) == all_passed(h, ceiling, worker_count),
{
    lemma_passed_after_push(h, ceiling, e);
    if all_passed(h, ceiling, worker_count) {
        assert forall|w: u32| 1 <= w <= worker_count implies #[trigger] passed_ceiling(h.push(e), ceiling, w) by {
            assert(passed_ceiling(h, ceiling, w));
        }
    }
    if all_passed(h.push(e), ceiling, worker_count) {
        assert forall|w: u32| 1 <= w <= worker_count implies #[trigger] passed_ceiling(h, ceiling, w) by {
            assert(passed_ceiling(h.push(e), ceiling, w));
        }
    }
}

/// Whether worker `w` has reported on candidate `c`.
pub open spec fn has_reported(h: Seq<Entry>, w: u32, c: nat) -> bool {
    exists|j: int| 0 <= j < h.len() && (#[trigger] h[j]).0 == w && h[j].1 == c
}

/// Once every worker has reported the candidate it tests after `ceiling`
/// others, all of them have gone past the ceiling: the search ends after
/// finitely many reports.
pub proof fn lemma_search_ends(h: Seq<Entry>, ceiling: nat, worker_count: u32)
    requires
        worker_count >= 1,
        forall|w: u32| 1 <= w <= worker_count ==> #[trigger] has_reported(h, w, candidate_of(worker_count as nat, w as nat, ceiling)),
    ensures
        all_passed(h, ceiling, worker_count),
{
    assert forall|w: u32| 1 <= w <= worker_count implies #[trigger] passed_ceiling(h, ceiling, w) by {
        assert(has_reported(h, w, candidate_of(worker_count as nat, w as nat, ceiling)));
        let j = choose|j: int| 0 <= j < h.len() && (#[trigger] h[j]).0 == w
            && h[j].1 == candidate_of(worker_count as nat, w as nat, ceiling);
        assert(worker_count as nat * ceiling >= ceiling) by (nonlinear_arith)
            requires
                worker_count >= 1,
        ;
        assert(2 * worker_count as nat * ceiling == 2 * (worker_count as nat * ceiling)) by (nonlinear_arith);
        assert(h[j].1 > ceiling);
    }
}

proof fn lemma_passed_after_push(h: Seq<Entry>, ceiling: nat, e: Entry)
    ensures
        forall|w: u32| #[trigger] passed_ceiling(h.push(e), ceiling, w) == (passed_ceiling(h, ceiling, w) || (
        e.0 == w && e.1 > ceiling)),
{
    let h2 = h.push(e);
    assert forall|w: u32| #[trigger] passed_ceiling(h2, ceiling, w) == (passed_ceiling(h, ceiling, w) || (e.0
        == w && e.1 > ceiling)) by {
        if passed_ceiling(h, ceiling, w) {
            let j = choose|j: int| 0 <= j < h.len() && (#[trigger] h[j]).0 == w && h[j].1 > ceiling;
            assert(h2[j] == h[j]);
        }
        if e.0 == w && e.1 > ceiling {
            assert(h2[h.len() as int] == e);
        }
        if passed_ceiling(h2, ceiling, w) {
            let j = choose|j: int| 0 <= j < h2.len() && (#[trigger] h2[j]).0 == w && h2[j].1 > ceiling;
            if j < h.len() {
                assert(h2[j] == h[j]);
            }
        }
    }
}

/// Whether every flag is set.
fn all_set(flags: &Vec<bool>) -> (r: bool)
    ensures
        r == (forall|i: int| 0 <= i < flags@.len() ==> #[trigger] flags@[i]),
{
    let mut i: usize = 0;
    while i < flags.len()
        invariant
            i <= flags@.len(),
            forall|k: int| 0 <= k < i ==> #[trigger] flags@[k],
        decreases flags@.len() - i,
    {
        if !flags[i] {
            return false;
        }
        i += 1;
    }
    true
}

/// The state of a search: the primes found so far and which workers have
/// gone past the ceiling.
pub struct Coordinator {
    pub worker_count: u32,
    pub ceiling: u64,
    pub ceiling_value: Natural,
    pub found: Vec<Natural>,
    pub done: Vec<bool>,
    pub finished: bool,
    /// Every report received, in order.
    pub history: Ghost<Seq<Entry>>,
}

impl Coordinator {
    /// The found primes and the flags follow from the reports received, and
    /// the search is finished exactly when every worker has gone past the
    /// ceiling.
    pub open spec fn wf(&self) -> bool {
        &&& self.worker_count >= 1
        &&& self.ceiling_value@ == self.ceiling
        &&& self.done@.len() == self.worker_count
        &&& forall|i: int| 0 <= i < self.worker_count ==> #[trigger] self.done@[i] == passed_ceiling(
            self.history@,
            self.ceiling as nat,
            (i + 1) as u32,
        )
        &&& values(self.found@) == accepted(self.history@, self.ceiling as nat)
        &&& self.finished == all_passed(self.history@, self.ceiling as nat, self.worker_count)
        &&& forall|j: int| 0 <= j < self.history@.len() ==> 1 <= (#[trigger] self.history@[j]).0 <= self.worker_count
    }

    /// A search with the settings of `config`, before any report: two is
    /// found and no worker is done.
    pub fn new(config: &Config) -> (r: Coordinator)
        requires
            config.worker_count >= 1,
        ensures
            r.wf(),
            r.worker_count == config.worker_count,
            r.ceiling == config.ceiling,
            r.history@ == Seq::<Entry>::empty(),
            values(r.found@) == seq![2nat],
            forall|i: int| 0 <= i < r.done@.len() ==> !#[trigger] r.done@[i],
            !r.finished,
    {
        let mut done: Vec<bool> = Vec::new();
        let mut i: u32 = 0;
        while i < config.worker_count
            invariant
                i <= config.worker_count,
                done@.len() == i,
                forall|k: int| 0 <= k < i ==> !#[trigger] done@[k],
            decreases config.worker_count - i,
        {
            done.push(false);
            i += 1;
        }
        let mut found: Vec<Natural> = Vec::new();
        found.push(Natural::from_u64(2));
        let ghost h = Seq::<Entry>::empty();
        assert(values(found@) =~= accepted(h, config.ceiling as nat));
        assert(!passed_ceiling(h, config.ceiling as nat, 1));
        Coordinator {
            worker_count: config.worker_count,
            ceiling: config.ceiling,
            ceiling_value: Natural::from_u64(config.ceiling),
            found,
            done,
            finished: false,
            history: Ghost(h),
        }
    }

    /// Takes in one report: a candidate above the ceiling marks its worker
    /// done, whatever the verdict; a candidate up to the ceiling with a prime
    /// verdict is kept. Answers whether every worker is now done.
    pub fn receive(&mut self, report: Report) -> (r: bool)
        requires
            old(self).wf(),
            1 <= report.tag.worker_of() <= old(self).worker_count,
        ensures
            final(self).wf(),
            final(self).worker_count == old(self).worker_count,
            final(self).ceiling == old(self).ceiling,
            final(self).history@ == old(self).history@.push(
                (report.tag.worker_of(), report.candidate@, report.tag.verdict_of()),
            ),
            final(self).done@ == (if report.candidate@ > old(self).ceiling {
                old(self).done@.update(report.tag.worker_of() - 1, true)
            } else {
                old(self).done@
            }),
            final(self).found@ == (if report.tag.verdict_of() && report.candidate@ <= old(self).ceiling {
                old(self).found@.push(report.candidate)
            } else {
                old(self).found@
            }),
            r == final(self).finished,
            r == all_passed(final(self).history@, old(self).ceiling as nat, old(self).worker_count),
    {
        let w = report.tag.worker();
        let prime = report.tag.is_prime();
        let within = less_or_equal(&report.candidate, &self.ceiling_value);
        let ghost e: Entry = (w, report.candidate@, prime);
        let ghost h = self.history@;
        let ghost h2 = h.push(e);
        proof {
            lemma_passed_after_push(h, self.ceiling as nat, e);
            assert(h2.drop_last() =~= h);
        }
        if !within {
            self.done.set((w - 1) as usize, true);
        }
        if prime && within {
            self.found.push(report.candidate);
        }
        self.history = Ghost(h2);
        proof {
            assert(values(self.found@) =~= accepted(h2, self.ceiling as nat));
            assert forall|j: int| 0 <= j < h2.len() implies 1 <= (#[trigger] h2[j]).0 <= self.worker_count by {
                if j < h.len() {
                    assert(h2[j] == h[j]);
                }
            }
            assert forall|i: int| 0 <= i < self.worker_count implies #[trigger] self.done@[i] == passed_ceiling(
                h2,
                self.ceiling as nat,
                (i + 1) as u32,
            ) by {
                assert(passed_ceiling(h2, self.ceiling as nat, (i + 1) as u32) == (passed_ceiling(h, self.ceiling as nat, (i + 1) as u32) || (e.0 == (i + 1) as u32 && e.1 > self.ceiling)));
            }
        }
        let all = all_set(&self.done);
        proof {
            if all {
                assert forall|v: u32| 1 <= v <= self.worker_count implies #[trigger] passed_ceiling(
                    h2,
                    self.ceiling as nat,
                    v,
                ) by {
                    assert(self.done@[v - 1]);
                }
            } else {
                let i = choose|i: int| 0 <= i < self.done@.len() && !#[trigger] self.done@[i];
                assert(!passed_ceiling(h2, self.ceiling as nat, (i + 1) as u32));
            }
        }
        self.finished = all;
        all
    }
}

} // verus!
