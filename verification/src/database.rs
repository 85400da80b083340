//! The process-wide facade: owns the version store and the transaction
//! registry and creates transaction handles.

use vstd::prelude::*;

use crate::mvcc::{IsolationLevel, Transaction, TransactionState};
use crate::registry::{fresh_record, lemma_wf_txs_begin, wf_txs, RecView, TransactionRegistry};
use crate::store::{lemma_wf_chains_grow, wf_chains, ChainView, VersionStore};

verus! {

/// Mathematical image of a [`Database`].
#[verifier::ext_equal]
pub ghost struct DbView {
    pub default_isolation: IsolationLevel,
    pub chains: Seq<ChainView>,
    pub txs: Seq<RecView>,
}

/// Owns the single version store and transaction registry of the
/// process. All data operations flow through [`Transaction`] handles
/// obtained from [`Database::new_transaction`].
pub struct Database {
    /// Isolation level given to new transactions; consulted only at
    /// transaction-creation time.
    pub default_isolation: IsolationLevel,
    pub store: VersionStore,
    pub registry: TransactionRegistry,
}

impl View for Database {
    type V = DbView;

    open spec fn view(&self) -> DbView {
        DbView {
            default_isolation: self.default_isolation,
            chains: self.store@,
            txs: self.registry@,
        }
    }
}

impl Database {
    /// The database's invariant: the registry is well-formed and every
    /// version chain is non-empty, mentions only assigned transaction
    /// ids, and keeps exactly its last version undeleted.
    pub open spec fn wf(self) -> bool {
        wf_txs(self@.txs) && wf_chains(self@.chains, self@.txs.len() as int)
    }

    /// An empty database with a `ReadCommitted` default isolation level.
    pub fn new() -> (db: Database)
        ensures
            db@.default_isolation == IsolationLevel::ReadCommitted,
            db@.chains == Seq::<ChainView>::empty(),
            db@.txs == Seq::<RecView>::empty(),
            db.wf(),
    {
        Database {
            default_isolation: IsolationLevel::ReadCommitted,
            store: VersionStore::new(),
            registry: TransactionRegistry::new(),
        }
    }

    /// Begins a transaction at the given isolation level: allocates the
    /// next transaction id and binds a handle to it.
    pub fn new_transaction_with(&mut self, isolation: IsolationLevel) -> (t: Transaction)
        requires
            old(self).wf(),
        ensures
            final(self).wf(),
            t.id == old(self)@.txs.len() + 1,
            t.isolation_level == isolation,
            t.state == TransactionState::InProgress,
            final(self)@.txs == old(self)@.txs.push(fresh_record(isolation)),
            final(self)@.chains == old(self)@.chains,
            final(self)@.default_isolation == old(self)@.default_isolation,
    {
        let tid: usize = self.registry.begin(isolation);
        proof {
            lemma_wf_txs_begin(old(self)@.txs, isolation);
            lemma_wf_chains_grow(
                self@.chains,
                old(self)@.txs.len() as int,
                self@.txs.len() as int,
            );
        }
        Transaction::new(isolation, tid, TransactionState::InProgress)
    }

    /// Begins a transaction at the database's default isolation level.
    pub fn new_transaction(&mut self) -> (t: Transaction)
        requires
            old(self).wf(),
        ensures
            final(self).wf(),
            t.id == old(self)@.txs.len() + 1,
            t.isolation_level == old(self)@.default_isolation,
            t.state == TransactionState::InProgress,
            final(self)@.txs == old(self)@.txs.push(
                fresh_record(old(self)@.default_isolation),
            ),
            final(self)@.chains == old(self)@.chains,
            final(self)@.default_isolation == old(self)@.default_isolation,
    {
        let isolation = self.default_isolation;
        self.new_transaction_with(isolation)
    }
}

} // verus!
