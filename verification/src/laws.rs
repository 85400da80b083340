//! Isolation laws: what the visibility rule guarantees, stated and
//! proved over the store's and registry's mathematical models.

use vstd::prelude::*;

use crate::mvcc::{snapshot_level, IsolationLevel, TransactionState, VersionView};
use crate::registry::{
    conflicts, fresh_record, has_conflict, overlap, tx_valid, RecView,
};
use crate::store::{
    chain_idx, chain_of, has_chain, keys_unique, lemma_chain_idx_is, newest_visible,
    read_at_level, store_after_write, tx_applies, version_visible, wf_chain, wf_chains,
    write_chain, ChainView,
};

verus! {

/// A version visible under `ReadCommitted` to a reader that never wrote
/// the chain itself: its creator committed and no committed write
/// superseded it.
pub open spec fn version_committed(txs: Seq<RecView>, v: VersionView) -> bool {
    txs[v.created_by - 1].state == TransactionState::Committed && !(v.deleted_by
        matches Option::Some(d) && txs[d - 1].state == TransactionState::Committed)
}

/// The newest version of `vs` whose creator committed and that no
/// committed write superseded.
pub open spec fn newest_committed(txs: Seq<RecView>, vs: Seq<VersionView>) -> Option<VersionView>
    decreases vs.len(),
{
    if vs.len() == 0 {
        Option::None
    } else if version_committed(txs, vs.last()) {
        Option::Some(vs.last())
    } else {
        newest_committed(txs, vs.drop_last())
    }
}

/// The latest committed value of key `k`, independent of any reader.
pub open spec fn latest_committed_value(
    chains: Seq<ChainView>,
    txs: Seq<RecView>,
    k: Seq<char>,
) -> Option<Seq<char>> {
    if !has_chain(chains, k) {
        Option::None
    } else {
        match newest_committed(txs, chain_of(chains, k)) {
            Option::Some(v) => v.value,
            Option::None => Option::None,
        }
    }
}

/// No version of `vs` was created or superseded by transaction `rid`.
pub open spec fn no_own_marks(vs: Seq<VersionView>, rid: int) -> bool {
    forall|j: int|
        0 <= j < vs.len() ==> (#[trigger] vs[j]).created_by != rid && vs[j].deleted_by
            != Option::Some(rid)
}

proof fn lemma_newest_visible_rc_no_own(
    vs: Seq<VersionView>,
    txs: Seq<RecView>,
    rid: int,
)
    requires
        no_own_marks(vs, rid),
    ensures
        newest_visible(txs, IsolationLevel::ReadCommitted, rid, vs) == newest_committed(txs, vs),
    decreases vs.len(),
{
    if vs.len() > 0 {
        assert(version_visible(txs, IsolationLevel::ReadCommitted, rid, vs.last())
            == version_committed(txs, vs.last()));
        assert(forall|j: int| 0 <= j < vs.len() - 1 ==> vs.drop_last()[j] == vs[j]);
        lemma_newest_visible_rc_no_own(vs.drop_last(), txs, rid);
    }
}

/// A read under `ReadCommitted` reflects the latest committed value of
/// the key at the moment of the call — never an uncommitted value and
/// never a stale committed one — provided the reader has not itself
/// written the key (a transaction always sees its own writes).
pub proof fn lemma_read_committed_is_latest_committed(
    chains: Seq<ChainView>,
    txs: Seq<RecView>,
    rid: int,
    k: Seq<char>,
)
    requires
        has_chain(chains, k) ==> no_own_marks(chain_of(chains, k), rid),
    ensures
        read_at_level(chains, txs, IsolationLevel::ReadCommitted, rid, k)
            == latest_committed_value(chains, txs, k),
{
    if has_chain(chains, k) {
        lemma_newest_visible_rc_no_own(chain_of(chains, k), txs, rid);
    }
}

proof fn lemma_newest_visible_congruence(
    vs: Seq<VersionView>,
    txs1: Seq<RecView>,
    txs2: Seq<RecView>,
    level: IsolationLevel,
    rid: int,
)
    requires
        forall|j: int|
            0 <= j < vs.len() ==> version_visible(txs1, level, rid, #[trigger] vs[j])
                == version_visible(txs2, level, rid, vs[j]),
    ensures
        newest_visible(txs1, level, rid, vs) == newest_visible(txs2, level, rid, vs),
    decreases vs.len(),
{
    if vs.len() > 0 {
        assert(forall|j: int| 0 <= j < vs.len() - 1 ==> vs.drop_last()[j] == vs[j]);
        lemma_newest_visible_congruence(vs.drop_last(), txs1, txs2, level, rid);
    }
}

/// Two registries that agree, for every assigned id, on whether the
/// transaction's effects apply to the reader give that reader the same
/// view of every key.
pub proof fn lemma_read_congruence(
    chains: Seq<ChainView>,
    txs1: Seq<RecView>,
    txs2: Seq<RecView>,
    level: IsolationLevel,
    rid: int,
    k: Seq<char>,
    n: int,
)
    requires
        wf_chains(chains, n),
        forall|t: int|
            1 <= t <= n ==> #[trigger] tx_applies(txs1, level, rid, t) == tx_applies(
                txs2,
                level,
                rid,
                t,
            ),
    ensures
        read_at_level(chains, txs1, level, rid, k) == read_at_level(chains, txs2, level, rid, k),
{
    if has_chain(chains, k) {
        let vs = chain_of(chains, k);
        assert(wf_chain(vs, n));
        assert forall|j: int|
            0 <= j < vs.len() implies version_visible(txs1, level, rid, #[trigger] vs[j])
            == version_visible(txs2, level, rid, vs[j]) by {
            assert(1 <= vs[j].created_by <= n);
            assert(tx_applies(txs1, level, rid, vs[j].created_by) == tx_applies(
                txs2,
                level,
                rid,
                vs[j].created_by,
            ));
            match vs[j].deleted_by {
                Option::Some(d) => {
                    assert(tx_applies(txs1, level, rid, d) == tx_applies(txs2, level, rid, d));
                },
                Option::None => {},
            }
        }
        lemma_newest_visible_congruence(vs, txs1, txs2, level, rid);
    }
}

/// A snapshot-level reader is unaffected by another transaction's
/// commit: the commit point it is stamped with lies at or after the
/// reader's begin, so the committed effects still do not apply.
pub proof fn lemma_snapshot_read_stable_under_commit(
    chains: Seq<ChainView>,
    txs: Seq<RecView>,
    u: int,
    rid: int,
    level: IsolationLevel,
    k: Seq<char>,
)
    requires
        wf_chains(chains, txs.len() as int),
        tx_valid(txs, u),
        tx_valid(txs, rid),
        u != rid,
        snapshot_level(level),
        txs[u - 1].state == TransactionState::InProgress,
    ensures
        read_at_level(
            chains,
            txs.update(
                u - 1,
                RecView {
                    state: TransactionState::Committed,
                    commit_len: Option::Some(txs.len() as int),
                    ..txs[u - 1]
                },
            ),
            level,
            rid,
            k,
        ) == read_at_level(chains, txs, level, rid, k),
{
    let txs2 = txs.update(
        u - 1,
        RecView {
            state: TransactionState::Committed,
            commit_len: Option::Some(txs.len() as int),
            ..txs[u - 1]
        },
    );
    assert forall|t: int|
        1 <= t <= txs.len() implies #[trigger] tx_applies(txs, level, rid, t) == tx_applies(
        txs2,
        level,
        rid,
        t,
    ) by {
        if t == u {
            assert(!tx_applies(txs, level, rid, t));
            assert(rid <= txs.len());
            assert(!tx_applies(txs2, level, rid, t));
        }
    }
    lemma_read_congruence(chains, txs2, txs, level, rid, k, txs.len() as int);
}

/// A snapshot-level reader is unaffected by another transaction's abort.
pub proof fn lemma_snapshot_read_stable_under_abort(
    chains: Seq<ChainView>,
    txs: Seq<RecView>,
    u: int,
    rid: int,
    level: IsolationLevel,
    k: Seq<char>,
)
    requires
        wf_chains(chains, txs.len() as int),
        tx_valid(txs, u),
        tx_valid(txs, rid),
        u != rid,
        snapshot_level(level),
        txs[u - 1].state == TransactionState::InProgress,
    ensures
        read_at_level(
            chains,
            txs.update(u - 1, RecView { state: TransactionState::Aborted, ..txs[u - 1] }),
            level,
            rid,
            k,
        ) == read_at_level(chains, txs, level, rid, k),
{
    let txs2 = txs.update(u - 1, RecView { state: TransactionState::Aborted, ..txs[u - 1] });
    assert forall|t: int|
        1 <= t <= txs.len() implies #[trigger] tx_applies(txs, level, rid, t) == tx_applies(
        txs2,
        level,
        rid,
        t,
    ) by {
        if t == u {
            assert(!tx_applies(txs, level, rid, t));
            assert(!tx_applies(txs2, level, rid, t));
        }
    }
    lemma_read_congruence(chains, txs2, txs, level, rid, k, txs.len() as int);
}

/// No reader's view changes when a new transaction begins.
pub proof fn lemma_read_stable_under_begin(
    chains: Seq<ChainView>,
    txs: Seq<RecView>,
    isolation: IsolationLevel,
    rid: int,
    level: IsolationLevel,
    k: Seq<char>,
)
    requires
        wf_chains(chains, txs.len() as int),
    ensures
        read_at_level(chains, txs.push(fresh_record(isolation)), level, rid, k) == read_at_level(
            chains,
            txs,
            level,
            rid,
            k,
        ),
{
    let txs2 = txs.push(fresh_record(isolation));
    assert forall|t: int|
        1 <= t <= txs.len() implies #[trigger] tx_applies(txs, level, rid, t) == tx_applies(
        txs2,
        level,
        rid,
        t,
    ) by {
        assert(txs2[t - 1] == txs[t - 1]);
    }
    lemma_read_congruence(chains, txs2, txs, level, rid, k, txs.len() as int);
}

/// No reader's view changes when a transaction's read or write set is
/// extended (bookkeeping touches neither state nor commit point).
pub proof fn lemma_read_stable_under_bookkeeping(
    chains: Seq<ChainView>,
    txs: Seq<RecView>,
    tid: int,
    rec: RecView,
    rid: int,
    level: IsolationLevel,
    k: Seq<char>,
)
    requires
        wf_chains(chains, txs.len() as int),
        tx_valid(txs, tid),
        rec.state == txs[tid - 1].state,
        rec.commit_len == txs[tid - 1].commit_len,
    ensures
        read_at_level(chains, txs.update(tid - 1, rec), level, rid, k) == read_at_level(
            chains,
            txs,
            level,
            rid,
            k,
        ),
{
    let txs2 = txs.update(tid - 1, rec);
    assert forall|t: int|
        1 <= t <= txs.len() implies #[trigger] tx_applies(txs, level, rid, t) == tx_applies(
        txs2,
        level,
        rid,
        t,
    ) by {
        assert(txs2[t - 1].state == txs[t - 1].state);
        assert(txs2[t - 1].commit_len == txs[t - 1].commit_len);
    }
    lemma_read_congruence(chains, txs2, txs, level, rid, k, txs.len() as int);
}

/// After a write of `wk` by `writer`, the chain of `wk` is the written
/// chain, and every other key's chain is untouched.
pub proof fn lemma_chains_after_write(
    chains: Seq<ChainView>,
    wk: Seq<char>,
    writer: int,
    val: Option<Seq<char>>,
    k2: Seq<char>,
)
    requires
        keys_unique(chains),
    ensures
        has_chain(store_after_write(chains, wk, writer, val), wk),
        chain_of(store_after_write(chains, wk, writer, val), wk) == write_chain(
            if has_chain(chains, wk) {
                chain_of(chains, wk)
            } else {
                Seq::<VersionView>::empty()
            },
            writer,
            val,
        ),
        k2 != wk ==> has_chain(store_after_write(chains, wk, writer, val), k2) == has_chain(
            chains,
            k2,
        ),
        k2 != wk && has_chain(chains, k2) ==> chain_of(
            store_after_write(chains, wk, writer, val),
            k2,
        ) == chain_of(chains, k2),
{
    let post = store_after_write(chains, wk, writer, val);
    if has_chain(chains, wk) {
        let i = chain_idx(chains, wk);
        assert(0 <= i < chains.len() && chains[i].key == wk);
        assert(forall|j: int| 0 <= j < post.len() ==> (#[trigger] post[j]).key == chains[j].key);
        assert(keys_unique(post));
        lemma_chain_idx_is(post, wk, i);
        if k2 != wk && has_chain(chains, k2) {
            let j = chain_idx(chains, k2);
            assert(0 <= j < chains.len() && chains[j].key == k2);
            assert(j != i);
            lemma_chain_idx_is(post, k2, j);
        }
        if k2 != wk && has_chain(post, k2) {
            let j = choose|j: int| 0 <= j < post.len() && post[j].key == k2;
            assert(chains[j].key == k2);
        }
    } else {
        let i = chains.len() as int;
        assert(post[i].key == wk);
        assert(forall|j: int| 0 <= j < chains.len() ==> (#[trigger] post[j]) == chains[j]);
        assert(keys_unique(post)) by {
            assert(forall|j: int|
                0 <= j < chains.len() ==> (#[trigger] chains[j]).key != wk);
        }
        lemma_chain_idx_is(post, wk, i);
        if k2 != wk && has_chain(chains, k2) {
            let j = chain_idx(chains, k2);
            lemma_chain_idx_is(post, k2, j);
        }
        if k2 != wk && has_chain(post, k2) {
            let j = choose|j: int| 0 <= j < post.len() && post[j].key == k2;
            assert(j != i);
            assert(chains[j].key == k2);
        }
    }
}

/// A reader to whom the writer's effects do not apply — under a snapshot
/// level, any other transaction that has not committed before the reader
/// began — sees the same value for every key after the write as before.
/// Repeated reads under `Snapshot` or `RepeatableRead` therefore return
/// the same value regardless of concurrent writes.
pub proof fn lemma_read_stable_under_foreign_write(
    chains: Seq<ChainView>,
    txs: Seq<RecView>,
    wk: Seq<char>,
    writer: int,
    val: Option<Seq<char>>,
    rid: int,
    level: IsolationLevel,
    k: Seq<char>,
)
    requires
        wf_chains(chains, txs.len() as int),
        !tx_applies(txs, level, rid, writer),
    ensures
        read_at_level(store_after_write(chains, wk, writer, val), txs, level, rid, k)
            == read_at_level(chains, txs, level, rid, k),
{
    let post = store_after_write(chains, wk, writer, val);
    lemma_chains_after_write(chains, wk, writer, val, k);
    if k != wk {
        if has_chain(chains, k) {
            assert(chain_of(post, k) == chain_of(chains, k));
        }
    } else {
        let vs2 = chain_of(post, wk);
        if has_chain(chains, wk) {
            let vs = chain_of(chains, wk);
            assert(wf_chain(vs, txs.len() as int));
            assert(vs2 == write_chain(vs, writer, val));
            let marked = vs.update(
                vs.len() - 1,
                VersionView { deleted_by: Option::Some(writer), ..vs.last() },
            );
            assert(!version_visible(txs, level, rid, vs2.last()));
            assert(vs2.drop_last() =~= marked);
            assert(vs.last().deleted_by is None);
            if version_visible(txs, level, rid, vs.last()) {
                assert(version_visible(txs, level, rid, marked.last()));
                assert(newest_visible(txs, level, rid, marked) == Option::Some(marked.last()));
                assert(newest_visible(txs, level, rid, vs2) == newest_visible(
                    txs,
                    level,
                    rid,
                    marked,
                ));
                assert(newest_visible(txs, level, rid, vs2) == Option::Some(marked.last()));
                assert(newest_visible(txs, level, rid, vs) == Option::Some(vs.last()));
                assert(marked.last().value == vs.last().value);
            } else {
                assert(!version_visible(txs, level, rid, marked.last()));
                assert(marked.drop_last() =~= vs.drop_last());
                assert(newest_visible(txs, level, rid, vs2) == newest_visible(
                    txs,
                    level,
                    rid,
                    vs.drop_last(),
                ));
                assert(newest_visible(txs, level, rid, vs) == newest_visible(
                    txs,
                    level,
                    rid,
                    vs.drop_last(),
                ));
            }
        } else {
            assert(vs2 =~= seq![
                VersionView { value: val, created_by: writer, deleted_by: Option::None },
            ]);
            assert(!version_visible(txs, level, rid, vs2.last()));
            assert(vs2.drop_last() =~= Seq::<VersionView>::empty());
            assert(newest_visible(txs, level, rid, Seq::<VersionView>::empty()) is None);
            assert(newest_visible(txs, level, rid, vs2) is None);
        }
    }
}

/// Under `Snapshot`, `RepeatableRead` or `Serializable`, a write by
/// another transaction still in progress changes no read of the
/// snapshot-level reader. Together with the commit, abort, begin and
/// bookkeeping lemmas above, every operation another transaction can
/// perform leaves a snapshot-level reader's view of every key unchanged:
/// repeated `get`s of one transaction return the same value regardless
/// of concurrent commits.
pub proof fn lemma_snapshot_read_stable_under_write(
    chains: Seq<ChainView>,
    txs: Seq<RecView>,
    wk: Seq<char>,
    writer: int,
    val: Option<Seq<char>>,
    rid: int,
    level: IsolationLevel,
    k: Seq<char>,
)
    requires
        wf_chains(chains, txs.len() as int),
        writer != rid,
        snapshot_level(level),
        txs[writer - 1].state == TransactionState::InProgress,
    ensures
        read_at_level(store_after_write(chains, wk, writer, val), txs, level, rid, k)
            == read_at_level(chains, txs, level, rid, k),
{
    assert(!tx_applies(txs, level, rid, writer));
    lemma_read_stable_under_foreign_write(chains, txs, wk, writer, val, rid, level, k);
}

/// Under `ReadUncommitted`, a write is immediately visible to every
/// reader — before the writer commits — as long as the writer has not
/// aborted.
pub proof fn lemma_read_uncommitted_sees_write(
    chains: Seq<ChainView>,
    txs: Seq<RecView>,
    wk: Seq<char>,
    writer: int,
    val: Seq<char>,
    rid: int,
)
    requires
        keys_unique(chains),
        txs[writer - 1].state != TransactionState::Aborted,
    ensures
        read_at_level(
            store_after_write(chains, wk, writer, Option::Some(val)),
            txs,
            IsolationLevel::ReadUncommitted,
            rid,
            wk,
        ) == Option::Some(val),
{
    let post = store_after_write(chains, wk, writer, Option::Some(val));
    lemma_chains_after_write(chains, wk, writer, Option::Some(val), wk);
    let vs2 = chain_of(post, wk);
    assert(vs2.last() == VersionView {
        value: Option::Some(val),
        created_by: writer,
        deleted_by: Option::None,
    });
    assert(version_visible(txs, IsolationLevel::ReadUncommitted, rid, vs2.last()));
}

/// First-committer-wins: when two transactions both wrote key `k` and
/// one of them committed after the other began, the other's commit
/// conflicts. Together with `Transaction::commit`'s contract, the second
/// committer under a snapshot level fails with `Conflict` and is forced
/// to abort.
pub proof fn lemma_write_write_conflict(txs: Seq<RecView>, tid: int, u: int, k: Seq<char>)
    requires
        tx_valid(txs, tid),
        tx_valid(txs, u),
        u != tid,
        txs[u - 1].state == TransactionState::Committed,
        txs[u - 1].commit_len matches Option::Some(cl) && cl >= tid,
        txs[u - 1].write_set.contains(k),
        txs[tid - 1].write_set.contains(k),
    ensures
        has_conflict(txs, tid),
{
    let i = choose|i: int|
        0 <= i < txs[u - 1].write_set.len() && #[trigger] txs[u - 1].write_set[i] == k;
    let j = choose|j: int|
        0 <= j < txs[tid - 1].write_set.len() && #[trigger] txs[tid - 1].write_set[j] == k;
    assert(overlap(txs[u - 1].write_set, txs[tid - 1].write_set));
    assert(conflicts(txs, tid, u));
}

proof fn lemma_visible_creator_not_aborted(
    vs: Seq<VersionView>,
    txs: Seq<RecView>,
    level: IsolationLevel,
    rid: int,
)
    requires
        tx_valid(txs, rid),
        txs[rid - 1].state == TransactionState::InProgress,
    ensures
        newest_visible(txs, level, rid, vs) matches Option::Some(v) ==> txs[v.created_by
            - 1].state != TransactionState::Aborted,
    decreases vs.len(),
{
    if vs.len() > 0 {
        if !version_visible(txs, level, rid, vs.last()) {
            lemma_visible_creator_not_aborted(vs.drop_last(), txs, level, rid);
        }
    }
}

/// Abort is logical: whatever the isolation level, a read by an
/// in-progress transaction never resolves to a version whose creator
/// aborted — a value written by a transaction that then aborted can
/// never be observed again (unless a committed write produced it too).
pub proof fn lemma_aborted_writes_invisible(
    chains: Seq<ChainView>,
    txs: Seq<RecView>,
    level: IsolationLevel,
    rid: int,
    k: Seq<char>,
)
    requires
        tx_valid(txs, rid),
        txs[rid - 1].state == TransactionState::InProgress,
    ensures
        has_chain(chains, k) ==> (newest_visible(txs, level, rid, chain_of(chains, k))
            matches Option::Some(v) ==> txs[v.created_by - 1].state
            != TransactionState::Aborted),
{
    if has_chain(chains, k) {
        lemma_visible_creator_not_aborted(chain_of(chains, k), txs, level, rid);
    }
}

} // verus!
