//! The decisions of the single-instance lock: the lock is taken at every
//! usable candidate path, and a running instance at any of them wins.
use vstd::prelude::*;
use crate::text::concat_str;

verus! {

/// What trying to lock one candidate path gave.
#[derive(Debug, Clone, Copy, PartialEq, Eq, Structural)]
pub enum LockAttempt {
    /// The lock is now held.
    Acquired,
    /// Another instance holds it.
    Locked,
    /// The path cannot be used (no permission, no directory).
    Unavailable,
}

/// Why the lock was not obtained.
#[derive(Debug, Clone, Copy, PartialEq, Eq, Structural)]
pub enum LockRefusal {
    /// Another instance holds the lock at the candidate with this index.
    AlreadyRunning { index: usize },
    /// No candidate path could be used at all.
    NoWritablePath,
}

/// The candidate indices at which the lock was taken.
pub open spec fn acquired_indices(outcomes: Seq<LockAttempt>) -> Seq<usize>
    decreases outcomes.len(),
{
    if outcomes.len() == 0 {
        seq![]
    } else if outcomes.last() == LockAttempt::Acquired {
        acquired_indices(outcomes.drop_last()).push((outcomes.len() - 1) as usize)
    } else {
        acquired_indices(outcomes.drop_last())
    }
}

/// The outcome of the whole acquisition after the attempts `outcomes`: refused
/// at the first candidate that another instance holds, refused when none was
/// usable, and otherwise the indices of the locks taken.
pub open spec fn acquisition_verdict(outcomes: Seq<LockAttempt>) -> Result<Seq<usize>, LockRefusal> {
    if outcomes.len() > 0 && outcomes.last() == LockAttempt::Locked {
        Err(LockRefusal::AlreadyRunning { index: (outcomes.len() - 1) as usize })
    } else if acquired_indices(outcomes).len() == 0 {
        Err(LockRefusal::NoWritablePath)
    } else {
        Ok(acquired_indices(outcomes))
    }
}

/// The attempts made so far to lock the candidate paths, in order.
pub struct LockAcquisition {
    held: Vec<usize>,
    tried: usize,
    refused: bool,
    outcomes: Ghost<Seq<LockAttempt>>,
}

impl LockAcquisition {
    /// The outcomes recorded so far, one per candidate tried.
    pub closed spec fn outcomes(&self) -> Seq<LockAttempt> {
        self.outcomes@
    }

    /// Another instance was found: no more candidates are tried.
    pub open spec fn stopped(&self) -> bool {
        self.outcomes().len() > 0 && self.outcomes().last() == LockAttempt::Locked
    }

    /// The bookkeeping matches the outcomes.
    pub closed spec fn wf(&self) -> bool {
        &&& self.held@ == acquired_indices(self.outcomes@)
        &&& self.tried == self.outcomes@.len()
        &&& self.refused == (self.outcomes@.len() > 0 && self.outcomes@.last()
            == LockAttempt::Locked)
    }

    /// No candidate tried yet.
    pub fn new() -> (r: LockAcquisition)
        ensures
            r.wf(),
            r.outcomes() == Seq::<LockAttempt>::empty(),
    {
        let outcomes: Ghost<Seq<LockAttempt>> = Ghost(Seq::empty());
        LockAcquisition { held: Vec::new(), tried: 0, refused: false, outcomes }
    }

    /// Records the outcome for the next candidate; returns whether to go on
    /// to the following one (not once another instance was found).
    pub fn record(&mut self, outcome: LockAttempt) -> (go_on: bool)
        requires
            old(self).wf(),
            !old(self).stopped(),
            old(self).outcomes().len() < usize::MAX,
        ensures
            final(self).wf(),
            final(self).outcomes() == old(self).outcomes().push(outcome),
            go_on == (outcome != LockAttempt::Locked),
    {
        let ghost before = self.outcomes@;
        let index = self.tried;
        match outcome {
            LockAttempt::Acquired => {
                self.held.push(index);
            },
            LockAttempt::Locked => {
                self.refused = true;
            },
            LockAttempt::Unavailable => {},
        }
        self.tried = index + 1;
        proof {
            self.outcomes = Ghost(before.push(outcome));
        }
        proof {
            assert(self.outcomes@.drop_last() =~= before);
        }
        outcome != LockAttempt::Locked
    }

    /// The outcome of the acquisition.
    pub fn verdict(&self) -> (r: Result<Vec<usize>, LockRefusal>)
        requires
            self.wf(),
        ensures
            match r {
                Ok(v) => acquisition_verdict(self.outcomes()) == Ok::<Seq<usize>, LockRefusal>(
                    v@,
                ),
                Err(e) => acquisition_verdict(self.outcomes()) == Err::<Seq<usize>, LockRefusal>(
                    e,
                ),
            },
    {
        if self.refused {
            return Err(LockRefusal::AlreadyRunning { index: self.tried - 1 });
        }
        if self.held.len() == 0 {
            return Err(LockRefusal::NoWritablePath);
        }
        Ok(self.held.clone())
    }
}

/// The lock is held at a candidate exactly when trying it gave `Acquired`,
/// and every index listed is one of the candidates.
proof fn lemma_acquired_indices(outcomes: Seq<LockAttempt>)
    requires
        outcomes.len() <= usize::MAX,
    ensures
        forall|i: int|
            0 <= i < outcomes.len() ==> (#[trigger] acquired_indices(outcomes).contains(i as usize)
                <==> outcomes[i] == LockAttempt::Acquired),
        forall|k: int|
            0 <= k < acquired_indices(outcomes).len() ==> #[trigger] acquired_indices(outcomes)[k]
                < outcomes.len(),
    decreases outcomes.len(),
{
    if outcomes.len() > 0 {
        let d = outcomes.drop_last();
        lemma_acquired_indices(d);
        let p = acquired_indices(d);
        let n = (outcomes.len() - 1) as usize;
        assert forall|i: int| 0 <= i < outcomes.len() implies (#[trigger] acquired_indices(
            outcomes,
        ).contains(i as usize) <==> outcomes[i] == LockAttempt::Acquired) by {
            if i < d.len() {
                assert(d[i] == outcomes[i]);
                if outcomes.last() == LockAttempt::Acquired {
                    assert(acquired_indices(outcomes) == p.push(n));
                    if p.push(n).contains(i as usize) {
                        let k = choose|k: int| 0 <= k < p.push(n).len() && p.push(n)[k] == i as usize;
                        if k < p.len() {
                            assert(p[k] == i as usize);
                        }
                    }
                    if p.contains(i as usize) {
                        let k = choose|k: int| 0 <= k < p.len() && p[k] == i as usize;
                        assert(p.push(n)[k] == i as usize);
                    }
                }
            } else {
                if outcomes.last() == LockAttempt::Acquired {
                    assert(acquired_indices(outcomes) == p.push(n));
                    assert(p.push(n)[p.len() as int] == n);
                } else {
                    if p.contains(i as usize) {
                        let k = choose|k: int| 0 <= k < p.len() && p[k] == i as usize;
                        assert(p[k] < d.len());
                    }
                }
            }
        }
    }
}

/// The lock over all candidates: when the candidates would give `all`, the
/// attempts stop at the first candidate that another instance holds, and the
/// acquisition is refused naming it. When none is held elsewhere, every
/// candidate that could be locked is held, and the acquisition is refused
/// exactly when none could be.
pub proof fn lock_over_all_candidates(all: Seq<LockAttempt>)
    requires
        all.len() <= usize::MAX,
    ensures
        forall|i: int|
            0 <= i < all.len() && all[i] == LockAttempt::Locked && (forall|j: int|
                0 <= j < i ==> all[j] != LockAttempt::Locked) ==> #[trigger] acquisition_verdict(
                all.take(i + 1),
            ) == Err::<Seq<usize>, LockRefusal>(LockRefusal::AlreadyRunning { index: i as usize }),
        (forall|i: int| 0 <= i < all.len() ==> all[i] != LockAttempt::Locked) ==> {
            &&& (acquisition_verdict(all) is Err <==> forall|i: int|
                0 <= i < all.len() ==> all[i] != LockAttempt::Acquired)
            &&& acquisition_verdict(all) is Err ==> acquisition_verdict(all) == Err::<
                Seq<usize>,
                LockRefusal,
            >(LockRefusal::NoWritablePath)
            &&& acquisition_verdict(all) matches Ok(held) ==> forall|i: int|
                0 <= i < all.len() ==> (held.contains(i as usize) <==> all[i]
                    == LockAttempt::Acquired)
        },
{
    lemma_acquired_indices(all);
    assert forall|i: int|
        0 <= i < all.len() && all[i] == LockAttempt::Locked && (forall|j: int|
            0 <= j < i ==> all[j] != LockAttempt::Locked) implies #[trigger] acquisition_verdict(
        all.take(i + 1),
    ) == Err::<Seq<usize>, LockRefusal>(LockRefusal::AlreadyRunning { index: i as usize }) by {
        assert(all.take(i + 1).last() == all[i]);
    }
    if forall|i: int| 0 <= i < all.len() ==> all[i] != LockAttempt::Locked {
        if all.len() > 0 {
            assert(all.last() == all[all.len() - 1]);
        }
        let held = acquired_indices(all);
        if held.len() > 0 {
            assert(held[0] < all.len());
            let i = held[0] as int;
            assert(i as usize == held[0]);
            assert(held.contains(i as usize));
            assert(acquired_indices(all).contains(i as usize));
            assert(all[i] == LockAttempt::Acquired);
        } else {
            assert forall|i: int| 0 <= i < all.len() implies all[i] != LockAttempt::Acquired by {
                if all[i] == LockAttempt::Acquired {
                    assert(held.contains(i as usize));
                }
            }
        }
    }
}

/// The message reported when another instance holds the lock at `path`.
pub fn already_running_message(path: &str) -> (r: String)
    ensures
        r@ == "Another instance is already running (lock file: "@ + path@ + ")"@,
{
    let head = concat_str("Another instance is already running (lock file: ", path);
    concat_str(head.as_str(), ")")
}

} // verus!
