//! Trust-minimized execution synchronizer.
//!
//! Participants pre-sign their execution transaction once, at commit, against
//! a durable nonce, so it stays valid until their own nonce advances. A keeper
//! collects these pre-signed transactions and fires the whole crowd in one
//! tight window at execute time. It holds transactions the participants
//! already signed, so it cannot alter them: it can only broadcast or withhold.
use solana_transaction::Transaction;
use vstd::prelude::*;

verus! {

/// A signed (or unsigned) Solana transaction; the keeper only carries it.
#[verifier::external_type_specification]
#[verifier::external_body]
pub struct ExTransaction(Transaction);

/// Collects pre-signed executions and fires them as one synchronized batch.
pub struct Keeper {
    queue: Vec<Transaction>,
}

impl View for Keeper {
    type V = Seq<Transaction>;

    /// The queued transactions, oldest first.
    closed spec fn view(&self) -> Seq<Transaction> {
        self.queue@
    }
}

impl Keeper {
    /// An empty keeper.
    pub fn new() -> (k: Self)
        ensures
            k@ == Seq::<Transaction>::empty(),
    {
        Keeper { queue: Vec::new() }
    }

    /// Add a participant's pre-signed execution.
    pub fn enqueue(&mut self, tx: Transaction)
        ensures
            final(self)@ == old(self)@.push(tx),
    {
        self.queue.push(tx);
    }

    /// How many executions are queued.
    pub fn len(&self) -> (n: usize)
        ensures
            n == self@.len(),
    {
        self.queue.len()
    }

    /// Whether nothing is queued.
    pub fn is_empty(&self) -> (b: bool)
        ensures
            b == (self@.len() == 0),
    {
        self.queue.len() == 0
    }

    /// Take the queued transactions to broadcast, in the order they were
    /// queued, leaving the keeper empty. Broadcasting is the caller's job.
    pub fn drain(&mut self) -> (batch: Vec<Transaction>)
        ensures
            batch@ == old(self)@,
            final(self)@ == Seq::<Transaction>::empty(),
    {
        let mut batch: Vec<Transaction> = Vec::new();
        core::mem::swap(&mut batch, &mut self.queue);
        batch
    }
}

impl Default for Keeper {
    fn default() -> (k: Self)
        ensures
            k@ == Seq::<Transaction>::empty(),
    {
        Keeper::new()
    }
}

} // verus!
