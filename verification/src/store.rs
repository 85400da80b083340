//! The version store: per key, an append-only ordered chain of versions,
//! together with the visibility rule that decides which version a reading
//! transaction sees under its isolation level.

use vstd::prelude::*;

use crate::mvcc::{IsolationLevel, TransactionState, Value, VersionView};
use crate::registry::{tx_valid, RecView, TransactionRegistry};

verus! {

/// The chain of versions of one key; later entries are newer.
pub struct KeyChain {
    pub key: String,
    pub versions: Vec<Value>,
}

/// Mathematical image of a [`KeyChain`].
#[verifier::ext_equal]
pub ghost struct ChainView {
    pub key: Seq<char>,
    pub versions: Seq<VersionView>,
}

impl View for KeyChain {
    type V = ChainView;

    open spec fn view(&self) -> ChainView {
        ChainView { key: self.key@, versions: self.versions@.map_values(|v: Value| v@) }
    }
}

/// The view of an optional string value.
pub open spec fn opt_str_view(o: Option<String>) -> Option<Seq<char>> {
    match o {
        Option::Some(s) => Option::Some(s@),
        Option::None => Option::None,
    }
}

/// The effects of transaction `t` apply to a reader with id `rid` at
/// isolation level `level`. A transaction always sees its own effects;
/// those of another transaction apply under `ReadUncommitted` unless it
/// aborted, under `ReadCommitted` once it committed, and under the
/// snapshot levels once it committed before the reader began.
pub open spec fn tx_applies(
    txs: Seq<RecView>,
    level: IsolationLevel,
    rid: int,
    t: int,
) -> bool {
    t == rid || match level {
        IsolationLevel::ReadUncommitted => txs[t - 1].state != TransactionState::Aborted,
        IsolationLevel::ReadCommitted => txs[t - 1].state == TransactionState::Committed,
        _ => txs[t - 1].state == TransactionState::Committed && (txs[t - 1].commit_len
            matches Option::Some(cl) && cl < rid),
    }
}

/// Version `v` is visible to reader `rid`: the write that created it
/// applies, and no write that superseded it applies.
pub open spec fn version_visible(
    txs: Seq<RecView>,
    level: IsolationLevel,
    rid: int,
    v: VersionView,
) -> bool {
    tx_applies(txs, level, rid, v.created_by) && !(v.deleted_by matches Option::Some(d)
        && tx_applies(txs, level, rid, d))
}

/// The newest version of the chain `vs` visible to reader `rid`.
pub open spec fn newest_visible(
    txs: Seq<RecView>,
    level: IsolationLevel,
    rid: int,
    vs: Seq<VersionView>,
) -> Option<VersionView>
    decreases vs.len(),
{
    if vs.len() == 0 {
        Option::None
    } else if version_visible(txs, level, rid, vs.last()) {
        Option::Some(vs.last())
    } else {
        newest_visible(txs, level, rid, vs.drop_last())
    }
}

/// Some chain of `chains` holds key `k`.
pub open spec fn has_chain(chains: Seq<ChainView>, k: Seq<char>) -> bool {
    exists|i: int| 0 <= i < chains.len() && chains[i].key == k
}

/// The index of the chain holding key `k` (meaningful when `has_chain`).
pub open spec fn chain_idx(chains: Seq<ChainView>, k: Seq<char>) -> int {
    choose|i: int| 0 <= i < chains.len() && chains[i].key == k
}

/// The versions of key `k` (meaningful when `has_chain`).
pub open spec fn chain_of(chains: Seq<ChainView>, k: Seq<char>) -> Seq<VersionView> {
    chains[chain_idx(chains, k)].versions
}

/// What a read of key `k` by transaction `rid` at level `level` returns:
/// the value of the newest visible version, `None` when the key has no
/// chain, no version is visible, or the visible version is a tombstone.
pub open spec fn read_at_level(
    chains: Seq<ChainView>,
    txs: Seq<RecView>,
    level: IsolationLevel,
    rid: int,
    k: Seq<char>,
) -> Option<Seq<char>> {
    if !has_chain(chains, k) {
        Option::None
    } else {
        match newest_visible(txs, level, rid, chain_of(chains, k)) {
            Option::Some(v) => v.value,
            Option::None => Option::None,
        }
    }
}

/// The chain `vs` after a write by `tid`: the head (the one undeleted
/// version, always the last) is marked as superseded by `tid`, and a new
/// head created by `tid` is appended. `val` is `None` for a deletion.
pub open spec fn write_chain(vs: Seq<VersionView>, tid: int, val: Option<Seq<char>>) -> Seq<
    VersionView,
> {
    let marked = if vs.len() == 0 {
        vs
    } else {
        vs.update(
            vs.len() - 1,
            VersionView { deleted_by: Option::Some(tid), ..vs.last() },
        )
    };
    marked.push(VersionView { value: val, created_by: tid, deleted_by: Option::None })
}

/// The whole store after a write of key `k` by `tid`.
pub open spec fn store_after_write(
    chains: Seq<ChainView>,
    k: Seq<char>,
    tid: int,
    val: Option<Seq<char>>,
) -> Seq<ChainView> {
    if has_chain(chains, k) {
        let i = chain_idx(chains, k);
        chains.update(i, ChainView { versions: write_chain(chains[i].versions, tid, val), ..chains[i] })
    } else {
        chains.push(ChainView { key: k, versions: write_chain(Seq::empty(), tid, val) })
    }
}

/// No two chains hold the same key.
pub open spec fn keys_unique(chains: Seq<ChainView>) -> bool {
    forall|i: int, j: int|
        0 <= i < chains.len() && 0 <= j < chains.len() && i != j ==> chains[i].key != chains[j].key
}

/// Well-formedness of one chain against a registry of `n` transactions:
/// the chain is non-empty, every transaction id it mentions was assigned,
/// and exactly the last version is still undeleted.
pub open spec fn wf_chain(vs: Seq<VersionView>, n: int) -> bool {
    vs.len() >= 1 && forall|j: int|
        0 <= j < vs.len() ==> {
            &&& 1 <= vs[j].created_by <= n
            &&& (vs[j].deleted_by matches Option::Some(d) ==> 1 <= d <= n)
            &&& (vs[j].deleted_by is Some <==> j < vs.len() - 1)
        }
}

/// Well-formedness of the whole store.
pub open spec fn wf_chains(chains: Seq<ChainView>, n: int) -> bool {
    keys_unique(chains) && forall|i: int|
        0 <= i < chains.len() ==> wf_chain(#[trigger] chains[i].versions, n)
}

/// With unique keys, the chain found at index `i` is the chain of its key.
pub proof fn lemma_chain_idx_is(chains: Seq<ChainView>, k: Seq<char>, i: int)
    requires
        keys_unique(chains),
        0 <= i < chains.len(),
        chains[i].key == k,
    ensures
        has_chain(chains, k),
        chain_idx(chains, k) == i,
{
    assert(has_chain(chains, k));
    let j = chain_idx(chains, k);
    assert(0 <= j < chains.len() && chains[j].key == k);
}

/// A write preserves store well-formedness when the writer's id was
/// assigned.
pub proof fn lemma_write_preserves_wf(
    chains: Seq<ChainView>,
    k: Seq<char>,
    tid: int,
    val: Option<Seq<char>>,
    n: int,
)
    requires
        wf_chains(chains, n),
        1 <= tid <= n,
    ensures
        wf_chains(store_after_write(chains, k, tid, val), n),
{
    let post = store_after_write(chains, k, tid, val);
    if has_chain(chains, k) {
        let i = chain_idx(chains, k);
        let vs = chains[i].versions;
        let vs2 = write_chain(vs, tid, val);
        assert(wf_chain(vs2, n)) by {
            assert(forall|j: int| 0 <= j < vs.len() - 1 ==> vs2[j] == vs[j]);
            assert(vs2[vs.len() - 1].deleted_by == Option::Some(tid));
            assert(vs2.last().deleted_by is None);
        }
        assert(forall|j: int|
            0 <= j < post.len() ==> wf_chain(#[trigger] post[j].versions, n)) by {
            assert(forall|j: int|
                0 <= j < post.len() && j != i ==> post[j] == chains[j]);
        }
    } else {
        let vs2 = write_chain(Seq::<VersionView>::empty(), tid, val);
        assert(vs2.len() == 1);
        assert(wf_chain(vs2, n));
        assert(forall|j: int| 0 <= j < chains.len() ==> post[j] == chains[j]);
        assert(forall|j: int|
            0 <= j < chains.len() ==> #[trigger] post[j].key != k);
    }
}

/// A well-formed store stays well-formed when the registry grows.
pub proof fn lemma_wf_chains_grow(chains: Seq<ChainView>, n: int, m: int)
    requires
        wf_chains(chains, n),
        n <= m,
    ensures
        wf_chains(chains, m),
{
    assert forall|i: int| 0 <= i < chains.len() implies wf_chain(
        #[trigger] chains[i].versions,
        m,
    ) by {
        assert(wf_chain(chains[i].versions, n));
    }
}

/// Holds the version chains of all keys. Append-only: history is never
/// overwritten; concurrency arbitration is the transaction's business.
pub struct VersionStore {
    pub chains: Vec<KeyChain>,
}

impl View for VersionStore {
    type V = Seq<ChainView>;

    open spec fn view(&self) -> Seq<ChainView> {
        self.chains@.map_values(|c: KeyChain| c@)
    }
}

impl VersionStore {
    /// An empty store.
    pub fn new() -> (r: VersionStore)
        ensures
            r@ == Seq::<ChainView>::empty(),
    {
        let r = VersionStore { chains: Vec::new() };
        proof {
            assert(r@ =~= Seq::<ChainView>::empty());
        }
        r
    }

    /// The index of the chain holding `key`, if any.
    fn find_chain(&self, key: &String) -> (r: Option<usize>)
        ensures
            match r {
                Option::Some(i) => i < self@.len() && self@[i as int].key == key@,
                Option::None => !has_chain(self@, key@),
            },
    {
        let mut i: usize = 0;
        while i < self.chains.len()
            invariant
                i <= self@.len(),
                forall|j: int| 0 <= j < i ==> self@[j].key != key@,
            decreases self@.len() - i,
        {
            if self.chains[i].key == *key {
                return Option::Some(i);
            }
            i = i + 1;
        }
        Option::None
    }

    /// Relies on the registry record of `t` alone: whether `t`'s effects
    /// apply to reader `as_of` at `level`.
    fn tx_applies_exec(
        registry: &TransactionRegistry,
        level: IsolationLevel,
        as_of: usize,
        t: usize,
    ) -> (b: bool)
        requires
            tx_valid(registry@, t as int),
        ensures
            b == tx_applies(registry@, level, as_of as int, t as int),
    {
        if t == as_of {
            return true;
        }
        let st = registry.status(t).unwrap();
        match level {
            IsolationLevel::ReadUncommitted => !matches!(st, TransactionState::Aborted),
            IsolationLevel::ReadCommitted => matches!(st, TransactionState::Committed),
            _ => {
                if matches!(st, TransactionState::Committed) {
                    match registry.commit_point(t) {
                        Option::Some(cl) => cl < as_of,
                        Option::None => false,
                    }
                } else {
                    false
                }
            },
        }
    }

    /// Whether version `v` is visible to reader `as_of` at `level`.
    fn version_visible_exec(
        registry: &TransactionRegistry,
        level: IsolationLevel,
        as_of: usize,
        v: &Value,
    ) -> (b: bool)
        requires
            tx_valid(registry@, v.tx_start_id as int),
            v.tx_end_id matches Some(d) ==> tx_valid(registry@, d as int),
        ensures
            b == version_visible(registry@, level, as_of as int, v@),
    {
        if !Self::tx_applies_exec(registry, level, as_of, v.tx_start_id) {
            return false;
        }
        match v.tx_end_id {
            Option::Some(d) => !Self::tx_applies_exec(registry, level, as_of, d),
            Option::None => true,
        }
    }

    /// Scans the chain of `key` and returns the value of the newest
    /// version visible to the reading transaction `as_of` under `level`:
    /// `None` when no visible version exists or the visible one is a
    /// tombstone.
    pub fn read(
        &self,
        key: &str,
        as_of: usize,
        level: IsolationLevel,
        registry: &TransactionRegistry,
    ) -> (r: Option<String>)
        requires
            wf_chains(self@, registry@.len() as int),
            tx_valid(registry@, as_of as int),
        ensures
            opt_str_view(r) == read_at_level(self@, registry@, level, as_of as int, key@),
    {
        let k = key.to_owned();
        match self.find_chain(&k) {
            Option::None => Option::None,
            Option::Some(ci) => {
                proof {
                    lemma_chain_idx_is(self@, k@, ci as int);
                }
                let chain = &self.chains[ci];
                let ghost vs = chain@.versions;
                proof {
                    assert(vs == chain_of(self@, key@));
                }
                let mut i: usize = chain.versions.len();
                proof {
                    assert(vs.take(i as int) =~= vs);
                }
                while i > 0
                    invariant
                        i <= vs.len(),
                        vs == chain@.versions,
                        has_chain(self@, key@),
                        chain_of(self@, key@) == vs,
                        wf_chain(vs, registry@.len() as int),
                        tx_valid(registry@, as_of as int),
                        newest_visible(registry@, level, as_of as int, vs) == newest_visible(
                            registry@,
                            level,
                            as_of as int,
                            vs.take(i as int),
                        ),
                    decreases i,
                {
                    i = i - 1;
                    let v = &chain.versions[i];
                    proof {
                        assert(vs.take(i + 1).last() == vs[i as int]);
                        assert(vs.take(i + 1).drop_last() =~= vs.take(i as int));
                    }
                    if Self::version_visible_exec(registry, level, as_of, v) {
                        proof {
                            assert(newest_visible(registry@, level, as_of as int, vs.take(i + 1))
                                == Option::Some(vs[i as int]));
                            assert(newest_visible(registry@, level, as_of as int, vs)
                                == Option::Some(vs[i as int]));
                            assert(read_at_level(self@, registry@, level, as_of as int, key@)
                                == vs[i as int].value);
                        }
                        return match &v.value {
                            Option::Some(s) => Option::Some(s.clone()),
                            Option::None => Option::None,
                        };
                    }
                }
                proof {
                    assert(vs.take(0) =~= Seq::<VersionView>::empty());
                }
                Option::None
            },
        }
    }

    /// Appends a new version of `key` tagged with `writer` and marks the
    /// previously undeleted version, if one exists, as superseded by
    /// `writer`. `value` is `None` for a deletion (a tombstone).
    pub fn write(&mut self, key: &str, value: Option<String>, writer: usize)
        requires
            keys_unique(old(self)@),
        ensures
            final(self)@ == store_after_write(
                old(self)@,
                key@,
                writer as int,
                opt_str_view(value),
            ),
    {
        let ghost valv = opt_str_view(value);
        let k = key.to_owned();
        let fresh = Value { value, tx_start_id: writer, tx_end_id: Option::None };
        match self.find_chain(&k) {
            Option::Some(ci) => {
                proof {
                    lemma_chain_idx_is(self@, k@, ci as int);
                }
                let chain = &mut self.chains[ci];
                let n: usize = chain.versions.len();
                if n > 0 {
                    let last = &mut chain.versions[n - 1];
                    last.tx_end_id = Option::Some(writer);
                }
                chain.versions.push(fresh);
                proof {
                    assert(self@[ci as int].versions =~= write_chain(
                        old(self)@[ci as int].versions,
                        writer as int,
                        valv,
                    ));
                    assert(self@ =~~= store_after_write(old(self)@, key@, writer as int, valv));
                }
            },
            Option::None => {
                let mut versions: Vec<Value> = Vec::new();
                versions.push(fresh);
                self.chains.push(KeyChain { key: k, versions });
                proof {
                    assert(self@ =~~= store_after_write(old(self)@, key@, writer as int, valv));
                }
            },
        }
    }
}

} // verus!
