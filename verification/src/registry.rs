//! The transaction registry: assigns monotonically increasing transaction
//! ids, tracks every transaction's isolation level, state, read set and
//! write set, and performs the commit-time conflict check.

use vstd::prelude::*;

use crate::mvcc::{snapshot_level, IsolationLevel, MvccError, TransactionState};

verus! {

/// Mathematical image of one registry record.
///
/// `commit_len` is the registry's length at the moment the transaction
/// committed (`None` while it has not). Because ids are assigned from the
/// registry's length, a transaction `u` committed before a transaction
/// `r` began exactly when `commit_len(u) < r`.
#[verifier::ext_equal]
pub ghost struct RecView {
    pub isolation: IsolationLevel,
    pub state: TransactionState,
    pub commit_len: Option<int>,
    pub read_set: Seq<Seq<char>>,
    pub write_set: Seq<Seq<char>>,
}

/// The authoritative record of one transaction.
pub struct TxRecord {
    pub isolation: IsolationLevel,
    pub state: TransactionState,
    pub commit_len: Option<usize>,
    pub read_set: Vec<String>,
    pub write_set: Vec<String>,
}

/// The views of a vector of strings.
pub open spec fn key_views(keys: Seq<String>) -> Seq<Seq<char>> {
    keys.map_values(|s: String| s@)
}

impl View for TxRecord {
    type V = RecView;

    open spec fn view(&self) -> RecView {
        RecView {
            isolation: self.isolation,
            state: self.state,
            commit_len: match self.commit_len {
                Option::Some(n) => Option::Some(n as int),
                Option::None => Option::None,
            },
            read_set: key_views(self.read_set@),
            write_set: key_views(self.write_set@),
        }
    }
}

/// The record a fresh transaction starts from.
pub open spec fn fresh_record(isolation: IsolationLevel) -> RecView {
    RecView {
        isolation,
        state: TransactionState::InProgress,
        commit_len: Option::None,
        read_set: Seq::empty(),
        write_set: Seq::empty(),
    }
}

/// `tid` names a transaction of the registry. Ids are assigned from 1 up.
pub open spec fn tx_valid(txs: Seq<RecView>, tid: int) -> bool {
    1 <= tid <= txs.len()
}

/// `tid` names a transaction that is still in progress.
pub open spec fn tx_active(txs: Seq<RecView>, tid: int) -> bool {
    tx_valid(txs, tid) && txs[tid - 1].state == TransactionState::InProgress
}

/// Well-formedness of the registry: a record carries a commit point
/// exactly when it is committed, and that point lies between the
/// transaction's begin and the registry's current length.
pub open spec fn wf_txs(txs: Seq<RecView>) -> bool {
    forall|i: int|
        0 <= i < txs.len() ==> {
            &&& (txs[i].state == TransactionState::Committed <==> txs[i].commit_len is Some)
            &&& (txs[i].commit_len matches Option::Some(cl) ==> i + 1 <= cl <= txs.len())
        }
}

/// Two sets of keys share a member.
pub open spec fn overlap(a: Seq<Seq<char>>, b: Seq<Seq<char>>) -> bool {
    exists|i: int, j: int| 0 <= i < a.len() && 0 <= j < b.len() && a[i] == b[j]
}

/// Transaction `u` makes `tid`'s commit fail: `u` is a different
/// transaction that committed after `tid` began and wrote a key that
/// `tid` also wrote — or, when `tid` is `Serializable`, a key that `tid`
/// read (first-committer-wins, extended to the read set for write skew).
pub open spec fn conflicts(txs: Seq<RecView>, tid: int, u: int) -> bool {
    &&& u != tid
    &&& txs[u - 1].state == TransactionState::Committed
    &&& (txs[u - 1].commit_len matches Option::Some(cl) && cl >= tid)
    &&& (overlap(txs[u - 1].write_set, txs[tid - 1].write_set) || (txs[tid - 1].isolation
        == IsolationLevel::Serializable && overlap(txs[u - 1].write_set, txs[tid - 1].read_set)))
}

/// Some committed transaction makes `tid`'s commit fail.
pub open spec fn has_conflict(txs: Seq<RecView>, tid: int) -> bool {
    exists|u: int| tx_valid(txs, u) && conflicts(txs, tid, u)
}

/// A fresh in-progress record keeps the registry well-formed.
pub proof fn lemma_wf_txs_begin(txs: Seq<RecView>, isolation: IsolationLevel)
    requires
        wf_txs(txs),
    ensures
        wf_txs(txs.push(fresh_record(isolation))),
{
    let post = txs.push(fresh_record(isolation));
    assert forall|i: int| 0 <= i < post.len() implies {
        &&& (post[i].state == TransactionState::Committed <==> post[i].commit_len is Some)
        &&& (post[i].commit_len matches Option::Some(cl) ==> i + 1 <= cl <= post.len())
    } by {
        if i < txs.len() {
            assert(post[i] == txs[i]);
        }
    }
}

/// Replacing a record while keeping its state and commit point keeps the
/// registry well-formed (read- and write-set bookkeeping).
pub proof fn lemma_wf_txs_sets(txs: Seq<RecView>, tid: int, rec: RecView)
    requires
        wf_txs(txs),
        tx_valid(txs, tid),
        rec.state == txs[tid - 1].state,
        rec.commit_len == txs[tid - 1].commit_len,
    ensures
        wf_txs(txs.update(tid - 1, rec)),
{
}

/// Aborting an in-progress transaction keeps the registry well-formed.
pub proof fn lemma_wf_txs_abort(txs: Seq<RecView>, tid: int)
    requires
        wf_txs(txs),
        tx_active(txs, tid),
    ensures
        wf_txs(
            txs.update(tid - 1, RecView { state: TransactionState::Aborted, ..txs[tid - 1] }),
        ),
{
}

/// Committing an in-progress transaction, stamped with the registry's
/// current length, keeps the registry well-formed.
pub proof fn lemma_wf_txs_commit(txs: Seq<RecView>, tid: int)
    requires
        wf_txs(txs),
        tx_active(txs, tid),
    ensures
        wf_txs(
            txs.update(
                tid - 1,
                RecView {
                    state: TransactionState::Committed,
                    commit_len: Option::Some(txs.len() as int),
                    ..txs[tid - 1]
                },
            ),
        ),
{
}

/// Tracks every transaction's id, isolation level, state, read set and
/// write set. The record of transaction id `t` sits at index `t - 1`.
pub struct TransactionRegistry {
    pub txs: Vec<TxRecord>,
}

impl View for TransactionRegistry {
    type V = Seq<RecView>;

    open spec fn view(&self) -> Seq<RecView> {
        self.txs@.map_values(|r: TxRecord| r@)
    }
}

impl TransactionRegistry {
    /// An empty registry; the first transaction will get id 1.
    pub fn new() -> (r: TransactionRegistry)
        ensures
            r@ == Seq::<RecView>::empty(),
    {
        let r = TransactionRegistry { txs: Vec::new() };
        proof {
            assert(r@ =~= Seq::<RecView>::empty());
        }
        r
    }

    /// Allocates the next id (strictly increasing, never reused) and
    /// inserts an in-progress record for it.
    pub fn begin(&mut self, isolation: IsolationLevel) -> (tid: usize)
        ensures
            tid == old(self)@.len() + 1,
            final(self)@ == old(self)@.push(fresh_record(isolation)),
    {
        self.txs.push(
            TxRecord {
                isolation,
                state: TransactionState::InProgress,
                commit_len: Option::None,
                read_set: Vec::new(),
                write_set: Vec::new(),
            },
        );
        proof {
            assert(self@ =~~= old(self)@.push(fresh_record(isolation)));
        }
        self.txs.len()
    }

    /// The state of transaction `tid`, or `None` for an id that was never
    /// assigned.
    pub fn status(&self, tid: usize) -> (s: Option<TransactionState>)
        ensures
            s == if tx_valid(self@, tid as int) {
                Option::Some(self@[tid - 1].state)
            } else {
                Option::None::<TransactionState>
            },
    {
        if 1 <= tid && tid <= self.txs.len() {
            Option::Some(self.txs[tid - 1].state)
        } else {
            Option::None
        }
    }

    /// The registry length recorded when transaction `tid` committed, or
    /// `None` while it has not committed (or for an id never assigned).
    pub fn commit_point(&self, tid: usize) -> (r: Option<usize>)
        ensures
            tx_valid(self@, tid as int) ==> match r {
                Option::Some(n) => self@[tid - 1].commit_len == Option::Some(n as int),
                Option::None => self@[tid - 1].commit_len is None,
            },
            !tx_valid(self@, tid as int) ==> r is None,
    {
        if 1 <= tid && tid <= self.txs.len() {
            self.txs[tid - 1].commit_len
        } else {
            Option::None
        }
    }

    /// The isolation level transaction `tid` was created with, or `None`
    /// for an id that was never assigned.
    pub fn isolation(&self, tid: usize) -> (s: Option<IsolationLevel>)
        ensures
            s == if tx_valid(self@, tid as int) {
                Option::Some(self@[tid - 1].isolation)
            } else {
                Option::None::<IsolationLevel>
            },
    {
        if 1 <= tid && tid <= self.txs.len() {
            Option::Some(self.txs[tid - 1].isolation)
        } else {
            Option::None
        }
    }

    /// Appends `key` to the read set of transaction `tid` (used for
    /// conflict detection at commit under the snapshot levels).
    pub fn record_read(&mut self, tid: usize, key: &str)
        requires
            tx_valid(old(self)@, tid as int),
        ensures
            final(self)@ == old(self)@.update(
                tid - 1,
                RecView {
                    read_set: old(self)@[tid - 1].read_set.push(key@),
                    ..old(self)@[tid - 1]
                },
            ),
    {
        let k = key.to_owned();
        let r = &mut self.txs[tid - 1];
        r.read_set.push(k);
        proof {
            assert(self@ =~~= old(self)@.update(
                tid - 1,
                RecView {
                    read_set: old(self)@[tid - 1].read_set.push(key@),
                    ..old(self)@[tid - 1]
                },
            ));
        }
    }

    /// Appends `key` to the write set of transaction `tid`.
    pub fn record_write(&mut self, tid: usize, key: &str)
        requires
            tx_valid(old(self)@, tid as int),
        ensures
            final(self)@ == old(self)@.update(
                tid - 1,
                RecView {
                    write_set: old(self)@[tid - 1].write_set.push(key@),
                    ..old(self)@[tid - 1]
                },
            ),
    {
        let k = key.to_owned();
        let r = &mut self.txs[tid - 1];
        r.write_set.push(k);
        proof {
            assert(self@ =~~= old(self)@.update(
                tid - 1,
                RecView {
                    write_set: old(self)@[tid - 1].write_set.push(key@),
                    ..old(self)@[tid - 1]
                },
            ));
        }
    }

    /// Whether the two key vectors share a key.
    fn overlap_exec(a: &Vec<String>, b: &Vec<String>) -> (r: bool)
        ensures
            r == overlap(key_views(a@), key_views(b@)),
    {
        let mut i: usize = 0;
        while i < a.len()
            invariant
                i <= a@.len(),
                forall|p: int, q: int|
                    0 <= p < i && 0 <= q < b@.len() ==> key_views(a@)[p] != key_views(b@)[q],
            decreases a@.len() - i,
        {
            let mut j: usize = 0;
            while j < b.len()
                invariant
                    i < a@.len(),
                    j <= b@.len(),
                    forall|q: int| 0 <= q < j ==> key_views(a@)[i as int] != key_views(b@)[q],
                decreases b@.len() - j,
            {
                if a[i] == b[j] {
                    proof {
                        assert(key_views(a@)[i as int] == key_views(b@)[j as int]);
                    }
                    return true;
                }
                j = j + 1;
            }
            i = i + 1;
        }
        false
    }

    /// Whether some committed transaction conflicts with `tid`'s commit.
    fn conflict_exists(&self, tid: usize) -> (b: bool)
        requires
            tx_valid(self@, tid as int),
        ensures
            b == has_conflict(self@, tid as int),
    {
        let serializable = matches!(
            self.txs[tid - 1].isolation,
            IsolationLevel::Serializable
        );
        let mut idx: usize = 0;
        while idx < self.txs.len()
            invariant
                idx <= self@.len(),
                tx_valid(self@, tid as int),
                serializable == (self@[tid - 1].isolation == IsolationLevel::Serializable),
                forall|w: int| 1 <= w <= idx ==> !conflicts(self@, tid as int, w),
            decreases self@.len() - idx,
        {
            let u: usize = idx + 1;
            if u != tid && matches!(self.txs[idx].state, TransactionState::Committed) {
                let cp = self.txs[idx].commit_len;
                if let Option::Some(cl) = cp {
                    if cl >= tid {
                        if Self::overlap_exec(&self.txs[idx].write_set, &self.txs[tid - 1].write_set) {
                            proof {
                                assert(tx_valid(self@, u as int) && conflicts(
                                    self@,
                                    tid as int,
                                    u as int,
                                ));
                            }
                            return true;
                        }
                        if serializable && Self::overlap_exec(
                            &self.txs[idx].write_set,
                            &self.txs[tid - 1].read_set,
                        ) {
                            proof {
                                assert(tx_valid(self@, u as int) && conflicts(
                                    self@,
                                    tid as int,
                                    u as int,
                                ));
                            }
                            return true;
                        }
                    }
                }
            }
            idx = u;
        }
        false
    }

    /// Tries to commit transaction `tid`. Under the snapshot levels the
    /// commit is validated first: if a conflicting transaction committed
    /// after `tid` began, the commit fails with `Conflict` and `tid` is
    /// forced into the `Aborted` state. A commit of a transaction that is
    /// not in progress fails with `InvalidState`.
    pub fn commit(&mut self, tid: usize) -> (r: Result<(), MvccError>)
        ensures
            !tx_active(old(self)@, tid as int) ==> r == Result::<(), MvccError>::Err(
                MvccError::InvalidState,
            ) && final(self)@ == old(self)@,
            tx_active(old(self)@, tid as int) && snapshot_level(old(self)@[tid - 1].isolation)
                && has_conflict(old(self)@, tid as int) ==> r == Result::<(), MvccError>::Err(
                MvccError::Conflict,
            ) && final(self)@ == old(self)@.update(
                tid - 1,
                RecView { state: TransactionState::Aborted, ..old(self)@[tid - 1] },
            ),
            tx_active(old(self)@, tid as int) && !(snapshot_level(old(self)@[tid - 1].isolation)
                && has_conflict(old(self)@, tid as int)) ==> r == Result::<(), MvccError>::Ok(())
                && final(self)@ == old(self)@.update(
                tid - 1,
                RecView {
                    state: TransactionState::Committed,
                    commit_len: Option::Some(old(self)@.len() as int),
                    ..old(self)@[tid - 1]
                },
            ),
    {
        if !(1 <= tid && tid <= self.txs.len()) {
            return Result::Err(MvccError::InvalidState);
        }
        if !matches!(self.txs[tid - 1].state, TransactionState::InProgress) {
            return Result::Err(MvccError::InvalidState);
        }
        let needs_check = matches!(
            self.txs[tid - 1].isolation,
            IsolationLevel::RepeatableRead | IsolationLevel::Snapshot | IsolationLevel::Serializable
        );
        if needs_check && self.conflict_exists(tid) {
            let r = &mut self.txs[tid - 1];
            r.state = TransactionState::Aborted;
            proof {
                assert(self@ =~~= old(self)@.update(
                    tid - 1,
                    RecView { state: TransactionState::Aborted, ..old(self)@[tid - 1] },
                ));
            }
            return Result::Err(MvccError::Conflict);
        }
        let n: usize = self.txs.len();
        let r = &mut self.txs[tid - 1];
        r.state = TransactionState::Committed;
        r.commit_len = Option::Some(n);
        proof {
            assert(self@ =~~= old(self)@.update(
                tid - 1,
                RecView {
                    state: TransactionState::Committed,
                    commit_len: Option::Some(old(self)@.len() as int),
                    ..old(self)@[tid - 1]
                },
            ));
        }
        Result::Ok(())
    }

    /// Aborts transaction `tid`: in progress becomes `Aborted`; aborting
    /// an already aborted transaction succeeds and changes nothing
    /// (abort is idempotent); aborting a committed transaction, or an id
    /// never assigned, fails with `InvalidState`.
    pub fn abort(&mut self, tid: usize) -> (r: Result<(), MvccError>)
        ensures
            tx_active(old(self)@, tid as int) ==> r == Result::<(), MvccError>::Ok(())
                && final(self)@ == old(self)@.update(
                tid - 1,
                RecView { state: TransactionState::Aborted, ..old(self)@[tid - 1] },
            ),
            tx_valid(old(self)@, tid as int) && old(self)@[tid - 1].state
                == TransactionState::Aborted ==> r == Result::<(), MvccError>::Ok(())
                && final(self)@ == old(self)@,
            !tx_valid(old(self)@, tid as int) || old(self)@[tid - 1].state
                == TransactionState::Committed ==> r == Result::<(), MvccError>::Err(
                MvccError::InvalidState,
            ) && final(self)@ == old(self)@,
    {
        if !(1 <= tid && tid <= self.txs.len()) {
            return Result::Err(MvccError::InvalidState);
        }
        match self.txs[tid - 1].state {
            TransactionState::Committed => Result::Err(MvccError::InvalidState),
            TransactionState::Aborted => Result::Ok(()),
            TransactionState::InProgress => {
                let r = &mut self.txs[tid - 1];
                r.state = TransactionState::Aborted;
                proof {
                    assert(self@ =~~= old(self)@.update(
                        tid - 1,
                        RecView { state: TransactionState::Aborted, ..old(self)@[tid - 1] },
                    ));
                }
                Result::Ok(())
            },
        }
    }
}

} // verus!
