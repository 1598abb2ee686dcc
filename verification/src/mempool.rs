//! Mempool transactions and the processor that stores batches.
use vstd::prelude::*;
use crate::consensus::config::VerifierKey;

verus! {

/// A transfer as the mempool holds it, in raw field elements: the sender's
/// verifier data, the recipient, amount, nonce, price, payload and proof.
pub struct Transaction {
    pub snap: [u64; 4],
    pub from: VerifierKey,
    pub to: [u64; 4],
    pub amount: u64,
    pub nonce: u64,
    pub price: u64,
    pub payload: Vec<[u64; 8]>,
    pub proof: Vec<u64>,
}

impl Transaction {
    /// The transaction with the given parts.
    pub fn new(
        snap: [u64; 4],
        from: VerifierKey,
        to: [u64; 4],
        amount: u64,
        nonce: u64,
        price: u64,
        payload: Vec<[u64; 8]>,
        proof: Vec<u64>,
    ) -> (t: Transaction)
        ensures
            t.snap == snap,
            t.from == from,
            t.to == to,
            t.amount == amount,
            t.nonce == nonce,
            t.price == price,
            t.payload == payload,
            t.proof == proof,
    {
        Transaction { snap, from, to, amount, nonce, price, payload, proof }
    }

    /// Replaces the proof, keeping everything else.
    pub fn set_proof(&mut self, proof: Vec<u64>)
        ensures
            final(self).proof == proof,
            final(self).snap == old(self).snap,
            final(self).from == old(self).from,
            final(self).to == old(self).to,
            final(self).amount == old(self).amount,
            final(self).nonce == old(self).nonce,
            final(self).price == old(self).price,
            final(self).payload == old(self).payload,
    {
        self.proof = proof;
    }

    /// The summary that the transaction's hash covers: amount, nonce, price
    /// and the number of payload entries.
    pub fn info(&self) -> (i: [u64; 4])
        ensures
            i@ == seq![self.amount, self.nonce, self.price, self.payload@.len() as u64],
    {
        let i = [self.amount, self.nonce, self.price, self.payload.len() as u64];
        assert(i@ =~= seq![self.amount, self.nonce, self.price, self.payload@.len() as u64]);
        i
    }
}

/// Hashes and stores batches of transactions, then outputs their digests.
pub struct Processor;

/// A batch of transactions as it arrives from the network.
pub type SerializedBatchMessage = Vec<Transaction>;

} // verus!
