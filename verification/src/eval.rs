//! Chain-analysis adversaries that try to name a round's initiator.
//!
//! A round is a crowd performing the same action, one of whom is the hidden
//! initiator. Execution times are carried as order keys: a larger key is a
//! later execution, and equal keys are simultaneous.
use vstd::prelude::*;

verus! {

/// How a round's execution times are generated.
#[derive(Clone, Copy, Debug, PartialEq, Eq, Structural)]
pub enum Mode {
    /// Every participant, the initiator included, executes at an independent
    /// uniform time inside the window: no ordering signal.
    MirrorPool,
    /// Copy-trading: the initiator acts first and followers react strictly
    /// later, so the initiator is always the earliest executor.
    Naive,
}

/// One wallet's execution within a round.
#[derive(Clone, Copy, Debug)]
pub struct Execution {
    pub participant: usize,
    /// When it executed, as an order key (larger is later).
    pub time: u64,
}

/// A single round: the true initiator plus everyone's executions.
#[derive(Clone, Debug)]
pub struct Round {
    pub initiator: usize,
    pub executions: Vec<Execution>,
}

/// An attribution strategy: given a round, guess which participant initiated
/// it.
pub trait Attributor {
    fn name(&self) -> &'static str;

    fn guess_initiator(&self, round: &Round) -> usize
        requires
            round.executions@.len() > 0,
    ;
}

/// `i` is the first of the earliest executions.
pub open spec fn is_first_earliest(execs: Seq<Execution>, i: int) -> bool {
    &&& 0 <= i < execs.len()
    &&& forall|j: int| 0 <= j < execs.len() ==> execs[i].time <= (#[trigger] execs[j]).time
    &&& forall|j: int| 0 <= j < i ==> execs[i].time < (#[trigger] execs[j]).time
}

/// The canonical timing deanonymizer: the wallet that executed first is taken
/// to be the initiator (the first such execution when several tie).
pub struct EarliestExecutor;

impl EarliestExecutor {
    /// The index of the first earliest execution.
    pub fn earliest_index(executions: &Vec<Execution>) -> (i: usize)
        requires
            executions@.len() > 0,
        ensures
            is_first_earliest(executions@, i as int),
    {
        let mut best: usize = 0;
        let mut k: usize = 1;
        while k < executions.len()
            invariant
                1 <= k <= executions@.len(),
                best < k,
                forall|j: int| 0 <= j < k ==> executions@[best as int].time <= (#[trigger] executions@[j]).time,
                forall|j: int| 0 <= j < best ==> executions@[best as int].time < (#[trigger] executions@[j]).time,
            decreases executions@.len() - k,
        {
            if executions[k].time < executions[best].time {
                best = k;
            }
            k = k + 1;
        }
        best
    }
}

impl Attributor for EarliestExecutor {
    fn name(&self) -> (s: &'static str)
        ensures
            s@ == "earliest-executor"@,
    {
        "earliest-executor"
    }

    fn guess_initiator(&self, round: &Round) -> (p: usize)
        ensures
            exists|i: int|
                is_first_earliest(round.executions@, i) && p == round.executions@[i].participant,
    {
        let i = EarliestExecutor::earliest_index(&round.executions);
        round.executions[i].participant
    }
}

/// When the initiator's execution is strictly earlier than every other, it
/// is the only first earliest execution, so the timing deanonymizer (whose
/// guess is that execution's participant) names the initiator.
pub proof fn law_strictly_first_initiator_is_named(round: Round, k: int)
    requires
        0 <= k < round.executions@.len(),
        round.executions@[k].participant == round.initiator,
        forall|j: int|
            0 <= j < round.executions@.len() && j != k ==> round.executions@[k].time < (
            #[trigger] round.executions@[j]).time,
    ensures
        forall|i: int|
            #[trigger] is_first_earliest(round.executions@, i) ==> i == k
                && round.executions@[i].participant == round.initiator,
{
    assert forall|i: int| #[trigger] is_first_earliest(round.executions@, i) implies i == k by {
        if i != k {
            assert(round.executions@[i].time <= round.executions@[k].time);
            assert(round.executions@[k].time < round.executions@[i].time);
        }
    }
}

} // verus!
