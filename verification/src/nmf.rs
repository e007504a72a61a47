//! The iteration schedule of the factorization `V ≈ W·H`.
//!
//! The factors are updated by the multiplicative rules
//!
//! ```text
//! H <- H ⊙ (Wᵗ·V) / (Wᵗ·W·H + λ + ε)      with the W of before the iteration
//! W <- W ⊙ (V·Hᵗ) / (W·H·Hᵗ + λ + ε)      with the H just updated
//! ```
//!
//! and after each iteration the caller measures the error `E = Σ (V − W·H)²`.
//! The arithmetic is the caller's. This module decides how long the
//! iteration goes on: the caller reports after each iteration how the error
//! moved, and the [`Schedule`] answers whether another iteration is due.

use vstd::prelude::*;

verus! {

/// How the error after an iteration compares with the error after the one
/// before, relative to the error after the first iteration:
/// `(previous − current) / first` against the tolerance.
#[derive(Clone, Copy, Debug, PartialEq, Eq, Structural)]
pub enum Improvement {
    /// The error after the first iteration was zero, so that the relative
    /// improvement has no value.
    Undefined,
    /// The relative improvement is below the tolerance.
    Below,
    /// The relative improvement is not below the tolerance.
    Enough,
}

/// Where the iteration stands.
#[derive(Clone, Copy, Debug, PartialEq, Eq, Structural)]
pub enum Verdict {
    /// Another iteration is due.
    Continue,
    /// The error has stopped improving: the factors are final.
    Converged,
    /// The iteration budget is spent: the factors are final.
    Exhausted,
}

/// Where the iteration stands once `done` iterations are complete, the last
/// of them with the given `improvement`, under a budget of `max_iter`.
///
/// The first iteration sets the baseline and is never the last on account of
/// its error. From the second on, an improvement below the tolerance ends the
/// iteration, and so does an undefined one. Otherwise the iteration goes on
/// while the budget lasts.
pub open spec fn verdict_after(done: nat, max_iter: nat, improvement: Improvement) -> Verdict {
    if done >= 2 && improvement != Improvement::Enough {
        Verdict::Converged
    } else if done >= max_iter {
        Verdict::Exhausted
    } else {
        Verdict::Continue
    }
}

/// The iteration ends with the budget at the latest, whatever the error
/// does, and the first iteration never ends it as converged.
pub proof fn lemma_iteration_is_bounded(done: nat, max_iter: nat, improvement: Improvement)
    ensures
        done >= max_iter ==> verdict_after(done, max_iter, improvement) != Verdict::Continue,
        done <= 1 ==> verdict_after(done, max_iter, improvement) != Verdict::Converged,
{
}

/// The schedule of one factorization: it counts the iterations and ends them.
pub struct Schedule {
    max_iter: usize,
    done: usize,
    verdict: Verdict,
}

impl Schedule {
    /// The iterations never exceed the budget, and go on only below it.
    #[verifier::type_invariant]
    spec fn well_formed(&self) -> bool {
        &&& self.done <= self.max_iter
        &&& self.verdict == Verdict::Continue ==> self.done < self.max_iter
    }

    /// The iteration budget.
    pub closed spec fn budget(&self) -> nat {
        self.max_iter as nat
    }

    /// The number of iterations reported so far.
    pub closed spec fn completed(&self) -> nat {
        self.done as nat
    }

    /// Where the iteration stands.
    pub closed spec fn standing(&self) -> Verdict {
        self.verdict
    }

    /// A schedule of at most `max_iter` iterations, none of them done. With a
    /// budget of zero there is nothing to run.
    pub fn new(max_iter: usize) -> (s: Schedule)
        ensures
            s.budget() == max_iter,
            s.completed() == 0,
            s.standing() == if max_iter == 0 {
                Verdict::Exhausted
            } else {
                Verdict::Continue
            },
    {
        let verdict = if max_iter == 0 {
            Verdict::Exhausted
        } else {
            Verdict::Continue
        };
        Schedule { max_iter, done: 0, verdict }
    }

    /// The iteration budget.
    pub fn max_iter(&self) -> (n: usize)
        ensures
            n == self.budget(),
    {
        self.max_iter
    }

    /// The number of iterations reported so far: never more than the budget.
    pub fn iterations(&self) -> (n: usize)
        ensures
            n == self.completed(),
            n <= self.budget(),
            self.standing() == Verdict::Continue ==> n < self.budget(),
    {
        proof {
            use_type_invariant(self);
        }
        self.done
    }

    /// Where the iteration stands.
    pub fn verdict(&self) -> (v: Verdict)
        ensures
            v == self.standing(),
    {
        self.verdict
    }

    /// Whether another iteration is due.
    pub fn is_running(&self) -> (b: bool)
        ensures
            b == (self.standing() == Verdict::Continue),
            b ==> self.completed() < self.budget(),
    {
        proof {
            use_type_invariant(self);
        }
        match self.verdict {
            Verdict::Continue => true,
            _ => false,
        }
    }

    /// Reports one more iteration as complete, with the improvement that it
    /// brought, and answers where the iteration stands now. The improvement
    /// of the first iteration is not looked at. Once the iteration has ended,
    /// a report changes nothing.
    pub fn record(&mut self, improvement: Improvement) -> (v: Verdict)
        ensures
            final(self).budget() == old(self).budget(),
            v == final(self).standing(),
            old(self).standing() == Verdict::Continue ==> final(self).completed() == old(
                self,
            ).completed() + 1 && v == verdict_after(
                final(self).completed(),
                old(self).budget(),
                improvement,
            ),
            old(self).standing() != Verdict::Continue ==> final(self).completed() == old(
                self,
            ).completed() && v == old(self).standing(),
            final(self).completed() <= final(self).budget(),
    {
        proof {
            use_type_invariant(&*self);
        }
        match self.verdict {
            Verdict::Continue => {
                let done = self.done + 1;
                let settled = match improvement {
                    Improvement::Enough => false,
                    _ => done >= 2,
                };
                let verdict = if settled {
                    Verdict::Converged
                } else if done >= self.max_iter {
                    Verdict::Exhausted
                } else {
                    Verdict::Continue
                };
                *self = Schedule { max_iter: self.max_iter, done, verdict };
                verdict
            },
            verdict => verdict,
        }
    }
}

} // verus!
