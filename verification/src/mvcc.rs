//! Core vocabulary of the store: isolation levels, transaction states,
//! versions, and the transaction handle with its operations.

use vstd::prelude::*;

use crate::database::Database;
use crate::registry::{
    has_conflict, lemma_wf_txs_abort, lemma_wf_txs_commit, lemma_wf_txs_sets, tx_active, tx_valid,
    RecView,
};
use crate::store::{lemma_write_preserves_wf, opt_str_view, read_at_level, store_after_write};

verus! {

/// State of one transaction. Transitions only `InProgress -> Committed`
/// and `InProgress -> Aborted`, never back.
#[derive(Clone, Copy, Debug, PartialEq, Eq, Structural)]
pub enum TransactionState {
    InProgress,
    Aborted,
    Committed,
}

/// Isolation level of one transaction, fixed at its creation.
#[derive(Clone, Copy, Debug, PartialEq, Eq, Structural)]
pub enum IsolationLevel {
    ReadUncommitted,
    ReadCommitted,
    RepeatableRead,
    Snapshot,
    Serializable,
}

/// Errors returned by transaction operations.
#[derive(Clone, Copy, Debug, PartialEq, Eq, Structural)]
pub enum MvccError {
    /// Commit-time conflict with a concurrently committed writer; the
    /// transaction has been forced into the `Aborted` state.
    Conflict,
    /// The operation was invoked on a transaction that is not in progress.
    InvalidState,
}

/// The levels that read from a snapshot fixed at the transaction's start
/// and validate writes at commit time.
pub open spec fn snapshot_level(level: IsolationLevel) -> bool {
    match level {
        IsolationLevel::RepeatableRead => true,
        IsolationLevel::Snapshot => true,
        IsolationLevel::Serializable => true,
        _ => false,
    }
}

/// One historical value of a key. `value` is `None` for a tombstone
/// (a deletion marker). `tx_start_id` is the id of the transaction that
/// wrote the version; `tx_end_id`, once set, is the id of the transaction
/// that superseded or deleted it.
pub struct Value {
    pub value: Option<String>,
    pub tx_start_id: usize,
    pub tx_end_id: Option<usize>,
}

/// Mathematical image of a [`Value`].
#[verifier::ext_equal]
pub ghost struct VersionView {
    pub value: Option<Seq<char>>,
    pub created_by: int,
    pub deleted_by: Option<int>,
}

impl View for Value {
    type V = VersionView;

    open spec fn view(&self) -> VersionView {
        VersionView {
            value: match self.value {
                Option::Some(s) => Option::Some(s@),
                Option::None => Option::None,
            },
            created_by: self.tx_start_id as int,
            deleted_by: match self.tx_end_id {
                Option::Some(d) => Option::Some(d as int),
                Option::None => Option::None,
            },
        }
    }
}

/// A lightweight handle to one registry entry. The authoritative record
/// (state, isolation, read and write sets) lives in the database's
/// registry; the handle carries the id it was created with.
pub struct Transaction {
    pub isolation_level: IsolationLevel,
    pub id: usize,
    pub state: TransactionState,
}

impl Transaction {
    /// Builds a handle from its parts; `Database::new_transaction` is the
    /// ordinary way to obtain one.
    pub fn new(isolation_level: IsolationLevel, id: usize, state: TransactionState) -> (t:
        Transaction)
        ensures
            t.isolation_level == isolation_level,
            t.id == id,
            t.state == state,
    {
        Transaction { isolation_level, id, state }
    }

    /// Reads `key`: returns the value of the newest version visible to
    /// this transaction under its isolation level, `None` when no visible
    /// version exists or the visible one is a tombstone. Under the
    /// snapshot levels the key is added to the transaction's read set.
    /// Fails with `InvalidState` on a transaction that is not in
    /// progress.
    pub fn get(&self, db: &mut Database, key: &str) -> (r: Result<Option<String>, MvccError>)
        requires
            old(db).wf(),
        ensures
            final(db).wf(),
            !tx_active(old(db)@.txs, self.id as int) ==> r == Result::<
                Option<String>,
                MvccError,
            >::Err(MvccError::InvalidState) && final(db)@ == old(db)@,
            tx_active(old(db)@.txs, self.id as int) ==> {
                &&& r matches Result::Ok(v) && opt_str_view(v) == read_at_level(
                    old(db)@.chains,
                    old(db)@.txs,
                    old(db)@.txs[self.id - 1].isolation,
                    self.id as int,
                    key@,
                )
                &&& final(db)@.chains == old(db)@.chains
                &&& final(db)@.default_isolation == old(db)@.default_isolation
                &&& final(db)@.txs == if snapshot_level(old(db)@.txs[self.id - 1].isolation) {
                    old(db)@.txs.update(
                        self.id - 1,
                        RecView {
                            read_set: old(db)@.txs[self.id - 1].read_set.push(key@),
                            ..old(db)@.txs[self.id - 1]
                        },
                    )
                } else {
                    old(db)@.txs
                }
            },
    {
        let tid: usize = self.id;
        match db.registry.status(tid) {
            Option::None => {
                return Result::Err(MvccError::InvalidState);
            },
            Option::Some(st) => {
                if !matches!(st, TransactionState::InProgress) {
                    return Result::Err(MvccError::InvalidState);
                }
            },
        }
        let iso = db.registry.isolation(tid).unwrap();
        let val = db.store.read(key, tid, iso, &db.registry);
        if matches!(
            iso,
            IsolationLevel::RepeatableRead | IsolationLevel::Snapshot | IsolationLevel::Serializable
        ) {
            db.registry.record_read(tid, key);
            proof {
                lemma_wf_txs_sets(old(db)@.txs, tid as int, db@.txs[tid - 1]);
            }
        }
        Result::Ok(val)
    }

    /// Writes `key = value` as this transaction: appends a new version
    /// and records the key in the transaction's write set. The write is
    /// applied immediately (optimistic concurrency); under the snapshot
    /// levels `commit` later validates that no conflicting write
    /// committed. Fails with `InvalidState` on a transaction that is not
    /// in progress.
    pub fn set(&self, db: &mut Database, key: &str, value: &str) -> (r: Result<(), MvccError>)
        requires
            old(db).wf(),
        ensures
            final(db).wf(),
            !tx_active(old(db)@.txs, self.id as int) ==> r == Result::<(), MvccError>::Err(
                MvccError::InvalidState,
            ) && final(db)@ == old(db)@,
            tx_active(old(db)@.txs, self.id as int) ==> {
                &&& r == Result::<(), MvccError>::Ok(())
                &&& final(db)@.chains == store_after_write(
                    old(db)@.chains,
                    key@,
                    self.id as int,
                    Option::Some(value@),
                )
                &&& final(db)@.txs == old(db)@.txs.update(
                    self.id - 1,
                    RecView {
                        write_set: old(db)@.txs[self.id - 1].write_set.push(key@),
                        ..old(db)@.txs[self.id - 1]
                    },
                )
                &&& final(db)@.default_isolation == old(db)@.default_isolation
            },
    {
        let tid: usize = self.id;
        match db.registry.status(tid) {
            Option::None => {
                return Result::Err(MvccError::InvalidState);
            },
            Option::Some(st) => {
                if !matches!(st, TransactionState::InProgress) {
                    return Result::Err(MvccError::InvalidState);
                }
            },
        }
        db.registry.record_write(tid, key);
        db.store.write(key, Option::Some(value.to_owned()), tid);
        proof {
            lemma_wf_txs_sets(old(db)@.txs, tid as int, db@.txs[tid - 1]);
            lemma_write_preserves_wf(
                old(db)@.chains,
                key@,
                tid as int,
                Option::Some(value@),
                db@.txs.len() as int,
            );
        }
        Result::Ok(())
    }

    /// Deletes `key` as this transaction: appends a tombstone version and
    /// records the key in the transaction's write set. Fails with
    /// `InvalidState` on a transaction that is not in progress.
    pub fn delete(&self, db: &mut Database, key: &str) -> (r: Result<(), MvccError>)
        requires
            old(db).wf(),
        ensures
            final(db).wf(),
            !tx_active(old(db)@.txs, self.id as int) ==> r == Result::<(), MvccError>::Err(
                MvccError::InvalidState,
            ) && final(db)@ == old(db)@,
            tx_active(old(db)@.txs, self.id as int) ==> {
                &&& r == Result::<(), MvccError>::Ok(())
                &&& final(db)@.chains == store_after_write(
                    old(db)@.chains,
                    key@,
                    self.id as int,
                    Option::None,
                )
                &&& final(db)@.txs == old(db)@.txs.update(
                    self.id - 1,
                    RecView {
                        write_set: old(db)@.txs[self.id - 1].write_set.push(key@),
                        ..old(db)@.txs[self.id - 1]
                    },
                )
                &&& final(db)@.default_isolation == old(db)@.default_isolation
            },
    {
        let tid: usize = self.id;
        match db.registry.status(tid) {
            Option::None => {
                return Result::Err(MvccError::InvalidState);
            },
            Option::Some(st) => {
                if !matches!(st, TransactionState::InProgress) {
                    return Result::Err(MvccError::InvalidState);
                }
            },
        }
        db.registry.record_write(tid, key);
        db.store.write(key, Option::None, tid);
        proof {
            lemma_wf_txs_sets(old(db)@.txs, tid as int, db@.txs[tid - 1]);
            lemma_write_preserves_wf(
                old(db)@.chains,
                key@,
                tid as int,
                Option::None,
                db@.txs.len() as int,
            );
        }
        Result::Ok(())
    }

    /// Tries to commit this transaction. Under the snapshot levels the
    /// commit fails with `Conflict` — and the transaction is forced into
    /// the `Aborted` state — exactly when another transaction that
    /// committed after this one began wrote a key this one wrote (or,
    /// under `Serializable`, also a key this one read). The version store
    /// is never touched: versions written by this transaction simply
    /// become visible (or, on failure, stay invisible) through the
    /// registry's state change.
    pub fn commit(&self, db: &mut Database) -> (r: Result<(), MvccError>)
        requires
            old(db).wf(),
        ensures
            final(db).wf(),
            final(db)@.chains == old(db)@.chains,
            final(db)@.default_isolation == old(db)@.default_isolation,
            !tx_active(old(db)@.txs, self.id as int) ==> r == Result::<(), MvccError>::Err(
                MvccError::InvalidState,
            ) && final(db)@ == old(db)@,
            tx_active(old(db)@.txs, self.id as int) && snapshot_level(
                old(db)@.txs[self.id - 1].isolation,
            ) && has_conflict(old(db)@.txs, self.id as int) ==> r == Result::<(), MvccError>::Err(
                MvccError::Conflict,
            ) && final(db)@.txs == old(db)@.txs.update(
                self.id - 1,
                RecView { state: TransactionState::Aborted, ..old(db)@.txs[self.id - 1] },
            ),
            tx_active(old(db)@.txs, self.id as int) && !(snapshot_level(
                old(db)@.txs[self.id - 1].isolation,
            ) && has_conflict(old(db)@.txs, self.id as int)) ==> r == Result::<(), MvccError>::Ok(
                (),
            ) && final(db)@.txs == old(db)@.txs.update(
                self.id - 1,
                RecView {
                    state: TransactionState::Committed,
                    commit_len: Option::Some(old(db)@.txs.len() as int),
                    ..old(db)@.txs[self.id - 1]
                },
            ),
    {
        let r = db.registry.commit(self.id);
        proof {
            if tx_active(old(db)@.txs, self.id as int) {
                if snapshot_level(old(db)@.txs[self.id - 1].isolation) && has_conflict(
                    old(db)@.txs,
                    self.id as int,
                ) {
                    lemma_wf_txs_abort(old(db)@.txs, self.id as int);
                } else {
                    lemma_wf_txs_commit(old(db)@.txs, self.id as int);
                }
            }
        }
        r
    }

    /// Aborts this transaction: a logical rollback. Versions it wrote
    /// stay in their chains but are permanently invisible, because their
    /// creator is never `Committed`. Aborting an already aborted
    /// transaction succeeds and changes nothing; aborting a committed
    /// transaction fails with `InvalidState`.
    pub fn abort(&self, db: &mut Database) -> (r: Result<(), MvccError>)
        requires
            old(db).wf(),
        ensures
            final(db).wf(),
            final(db)@.chains == old(db)@.chains,
            final(db)@.default_isolation == old(db)@.default_isolation,
            tx_active(old(db)@.txs, self.id as int) ==> r == Result::<(), MvccError>::Ok(())
                && final(db)@.txs == old(db)@.txs.update(
                self.id - 1,
                RecView { state: TransactionState::Aborted, ..old(db)@.txs[self.id - 1] },
            ),
            tx_valid(old(db)@.txs, self.id as int) && old(db)@.txs[self.id - 1].state
                == TransactionState::Aborted ==> r == Result::<(), MvccError>::Ok(())
                && final(db)@ == old(db)@,
            !tx_valid(old(db)@.txs, self.id as int) || old(db)@.txs[self.id - 1].state
                == TransactionState::Committed ==> r == Result::<(), MvccError>::Err(
                MvccError::InvalidState,
            ) && final(db)@ == old(db)@,
    {
        let r = db.registry.abort(self.id);
        proof {
            if tx_active(old(db)@.txs, self.id as int) {
                lemma_wf_txs_abort(old(db)@.txs, self.id as int);
            }
        }
        r
    }
}

} // verus!
