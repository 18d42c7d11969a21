//! A worker's share of the candidates, and the report it sends for each.

use vstd::prelude::*;
use crate::natural::Natural;
use crate::natural::sum;
use crate::primality::is_prime;
use crate::primality::passes_trial;
use crate::primality::valid_base;
use crate::primality::verdict_for_bases;
use rand::rngs::ThreadRng;

verus! {

/// A verdict tagged with the worker that reached it.
#[derive(PartialEq, Eq, Structural, Clone, Copy, Debug)]
pub enum Tag {
    Prime(u32),
    Composite(u32),
}

/// The tag for `worker`'s verdict.
pub open spec fn tag_of(worker: u32, verdict: bool) -> Tag {
    if verdict {
        Tag::Prime(worker)
    } else {
        Tag::Composite(worker)
    }
}

impl Tag {
    /// The worker that a tag names.
    pub open spec fn worker_of(self) -> u32 {
        match self {
            Tag::Prime(w) => w,
            Tag::Composite(w) => w,
        }
    }

    /// The verdict that a tag carries.
    pub open spec fn verdict_of(self) -> bool {
        self is Prime
    }

    /// Tags `worker`'s verdict.
    pub fn new(worker: u32, verdict: bool) -> (r: Tag)
        ensures
            r == tag_of(worker, verdict),
    {
        if verdict {
            Tag::Prime(worker)
        } else {
            Tag::Composite(worker)
        }
    }

    /// The worker that the tag names.
    pub fn worker(&self) -> (r: u32)
        ensures
            r == self.worker_of(),
    {
        match self {
            Tag::Prime(w) => *w,
            Tag::Composite(w) => *w,
        }
    }

    /// Whether the tag carries a prime verdict.
    pub fn is_prime(&self) -> (r: bool)
        ensures
            r == self.verdict_of(),
    {
        match self {
            Tag::Prime(_) => true,
            Tag::Composite(_) => false,
        }
    }
}

/// Tagging a verdict loses nothing: the tag gives back the worker and the
/// verdict it was made from.
pub proof fn lemma_tag_round_trip(worker: u32, verdict: bool)
    ensures
        tag_of(worker, verdict).worker_of() == worker,
        tag_of(worker, verdict).verdict_of() == verdict,
{
}

/// A worker's verdict on one candidate.
pub struct Report {
    pub tag: Tag,
    pub candidate: Natural,
}

/// What the primality test may answer on `n` after `trials` rounds.
pub open spec fn verdict_allowed(n: nat, trials: nat, verdict: bool) -> bool {
    &&& n < 2 ==> !verdict
    &&& 2 <= n <= 3 ==> verdict
    &&& n > 3 && n % 2 == 0 ==> !verdict
    &&& n >= 5 && n % 2 == 1 && !verdict ==> exists|a: nat| valid_base(n, a) && !passes_trial(n, a)
    &&& n >= 5 && n % 2 == 1 && verdict ==> exists|bases: Seq<nat>|
        bases.len() == trials && (forall|k: int| 0 <= k < bases.len() ==> valid_base(n, #[trigger] bases[k]))
            && verdict_for_bases(n, bases)
}

/// The `k`-th candidate of worker `id` out of `worker_count`: the odd values
/// `2 * id + 1`, then on in steps of `2 * worker_count`.
pub open spec fn candidate_of(worker_count: nat, id: nat, k: nat) -> nat {
    2 * id + 1 + 2 * worker_count * k
}

/// No candidate is scanned by two workers.
pub proof fn lemma_residue_classes_disjoint(worker_count: nat, i: nat, j: nat, ki: nat, kj: nat)
    requires
        1 <= i <= worker_count,
        1 <= j <= worker_count,
        i != j,
    ensures
        candidate_of(worker_count, i, ki) != candidate_of(worker_count, j, kj),
{
    let a = worker_count * ki;
    let b = worker_count * kj;
    assert(2 * worker_count * ki == 2 * a && 2 * worker_count * kj == 2 * b) by (nonlinear_arith)
        requires
            a == worker_count * ki,
            b == worker_count * kj,
    ;
    if ki < kj {
        assert(b >= a + worker_count) by (nonlinear_arith)
            requires
                ki < kj,
                a == worker_count * ki,
                b == worker_count * kj,
        ;
    } else if kj < ki {
        assert(a >= b + worker_count) by (nonlinear_arith)
            requires
                kj < ki,
                a == worker_count * ki,
                b == worker_count * kj,
        ;
    }
}

/// Every odd value from three on is scanned by some worker.
pub proof fn lemma_residue_classes_cover(worker_count: nat, m: nat)
    requires
        worker_count >= 1,
        m >= 3,
        m % 2 == 1,
    ensures
        exists|id: nat, k: nat| 1 <= id <= worker_count && #[trigger] candidate_of(worker_count, id, k) == m,
{
    let q = ((m - 3) / 2) as nat;
    let id = (q % worker_count + 1) as nat;
    let k = q / worker_count;
    vstd::arithmetic::div_mod::lemma_fundamental_div_mod(q as int, worker_count as int);
    assert(2 * worker_count * k == 2 * (worker_count * k)) by (nonlinear_arith);
    assert(q * 2 == m - 3);
    assert(candidate_of(worker_count, id, k) == m);
}

/// One worker: its id, how many workers share the candidates, and the next
/// candidate it tests.
pub struct Worker {
    pub id: u32,
    pub worker_count: u32,
    pub current: Natural,
    pub step: Natural,
    /// How many candidates it has tested.
    pub tested: Ghost<nat>,
}

impl Worker {
    /// Its id lies in `[1, worker_count]` and its next candidate is the one
    /// after those it has tested.
    pub open spec fn wf(&self) -> bool {
        &&& 1 <= self.id <= self.worker_count
        &&& self.current@ == candidate_of(self.worker_count as nat, self.id as nat, self.tested@)
        &&& self.step@ == 2 * self.worker_count
    }

    /// The candidate that the next report is about.
    pub open spec fn next_candidate(&self) -> nat {
        candidate_of(self.worker_count as nat, self.id as nat, self.tested@)
    }

    /// Worker `id` of `worker_count`, before its first candidate.
    pub fn new(id: u32, worker_count: u32) -> (r: Worker)
        requires
            1 <= id <= worker_count,
        ensures
            r.wf(),
            r.id == id,
            r.worker_count == worker_count,
            r.tested@ == 0,
    {
        let current = Natural::from_u64(2 * (id as u64) + 1);
        let step = Natural::from_u64(2 * (worker_count as u64));
        Worker { id, worker_count, current, step, tested: Ghost(0) }
    }

    /// Tests the next candidate with `trials` rounds, moves on to the one
    /// after it, and reports the verdict.
    pub fn next_report(&mut self, trials: u32, rng: &mut ThreadRng) -> (r: Report)
        requires
            old(self).wf(),
        ensures
            final(self).wf(),
            final(self).id == old(self).id,
            final(self).worker_count == old(self).worker_count,
            final(self).tested@ == old(self).tested@ + 1,
            r.candidate@ == old(self).next_candidate(),
            r.tag.worker_of() == old(self).id,
            verdict_allowed(r.candidate@, trials as nat, r.tag.verdict_of()),
    {
        let verdict = is_prime(&self.current, trials, rng);
        let candidate = self.current.duplicate();
        self.current = sum(&candidate, &self.step);
        self.tested = Ghost(self.tested@ + 1);
        assert(self.current@ == candidate_of(self.worker_count as nat, self.id as nat, self.tested@)) by (nonlinear_arith)
            requires
                self.current@ == candidate@ + 2 * self.worker_count,
                candidate@ == candidate_of(self.worker_count as nat, self.id as nat, (self.tested@ - 1) as nat),
                self.tested@ >= 1,
        ;
        Report { tag: Tag::new(self.id, verdict), candidate }
    }
}

} // verus!
