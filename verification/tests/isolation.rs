use mvcc_store::database::Database;
use mvcc_store::mvcc::{IsolationLevel, MvccError, Transaction, TransactionState};

#[test]
fn read_uncommitted() {
    let mut db = Database::new();
    db.default_isolation = IsolationLevel::ReadUncommitted;

    let t1 = db.new_transaction();
    let t2 = db.new_transaction();

    t1.set(&mut db, "x", "hey").unwrap();

    // update seen by client 1
    let val1 = t1.get(&mut db, "x").unwrap();
    assert_eq!(val1, Some("hey".to_string()));

    // since read uncommitted, other clients see this uncommitted values.
    // This is mostly unwanted in production scenario.
    let val2 = t2.get(&mut db, "x").unwrap();
    assert_eq!(val2, Some("hey".to_string()));
}

#[test]
fn read_committed_waits_for_commit() {
    let mut db = Database::new();
    assert_eq!(db.default_isolation, IsolationLevel::ReadCommitted);

    let t1 = db.new_transaction();
    t1.set(&mut db, "x", "hey").unwrap();

    // an uncommitted write is invisible to another ReadCommitted reader
    let t2 = db.new_transaction();
    assert_eq!(t2.get(&mut db, "x").unwrap(), None);

    t1.commit(&mut db).unwrap();

    // after the commit, a new reader sees the latest committed value
    let t3 = db.new_transaction();
    assert_eq!(t3.get(&mut db, "x").unwrap(), Some("hey".to_string()));
}

#[test]
fn read_committed_is_not_stale() {
    let mut db = Database::new();

    let t1 = db.new_transaction();
    t1.set(&mut db, "x", "one").unwrap();
    t1.commit(&mut db).unwrap();

    // a ReadCommitted reader re-evaluates on every call: it first sees
    // the old committed value, then the newly committed one
    let r = db.new_transaction();
    assert_eq!(r.get(&mut db, "x").unwrap(), Some("one".to_string()));

    let t2 = db.new_transaction();
    t2.set(&mut db, "x", "two").unwrap();
    assert_eq!(r.get(&mut db, "x").unwrap(), Some("one".to_string()));
    t2.commit(&mut db).unwrap();

    assert_eq!(r.get(&mut db, "x").unwrap(), Some("two".to_string()));
}

#[test]
fn snapshot_is_fixed_at_begin() {
    let mut db = Database::new();

    let t1 = db.new_transaction();
    t1.set(&mut db, "x", "a").unwrap();
    t1.commit(&mut db).unwrap();

    let t2 = db.new_transaction_with(IsolationLevel::Snapshot);
    assert_eq!(t2.get(&mut db, "x").unwrap(), Some("a".to_string()));

    let t3 = db.new_transaction();
    t3.set(&mut db, "x", "b").unwrap();
    t3.commit(&mut db).unwrap();

    // t2's snapshot point precedes t3's commit: its view is unchanged
    assert_eq!(t2.get(&mut db, "x").unwrap(), Some("a".to_string()));

    // a transaction begun after t3's commit sees the new value
    let t4 = db.new_transaction();
    assert_eq!(t4.get(&mut db, "x").unwrap(), Some("b".to_string()));
}

#[test]
fn repeatable_read_is_repeatable() {
    let mut db = Database::new();

    let r = db.new_transaction_with(IsolationLevel::RepeatableRead);
    assert_eq!(r.get(&mut db, "x").unwrap(), None);

    let w = db.new_transaction();
    w.set(&mut db, "x", "v").unwrap();
    w.commit(&mut db).unwrap();

    // the concurrent commit does not change r's view
    assert_eq!(r.get(&mut db, "x").unwrap(), None);
}

#[test]
fn write_write_conflict_second_committer_fails() {
    let mut db = Database::new();

    let t1 = db.new_transaction_with(IsolationLevel::Serializable);
    let t2 = db.new_transaction_with(IsolationLevel::Serializable);

    t1.set(&mut db, "k", "one").unwrap();
    t2.set(&mut db, "k", "two").unwrap();

    assert_eq!(t1.commit(&mut db), Ok(()));
    assert_eq!(t2.commit(&mut db), Err(MvccError::Conflict));

    // the loser was forced into Aborted: its value never becomes visible
    let t3 = db.new_transaction();
    assert_eq!(t3.get(&mut db, "k").unwrap(), Some("one".to_string()));

    // and any further operation on it fails
    assert_eq!(t2.set(&mut db, "k", "three"), Err(MvccError::InvalidState));
}

#[test]
fn serializable_read_write_conflict() {
    let mut db = Database::new();

    let t1 = db.new_transaction_with(IsolationLevel::Serializable);
    assert_eq!(t1.get(&mut db, "k").unwrap(), None);

    let t2 = db.new_transaction();
    t2.set(&mut db, "k", "v").unwrap();
    t2.commit(&mut db).unwrap();

    // t1 read k; a write of k committed after t1 began: write skew is
    // refused even though t1 writes a different key
    t1.set(&mut db, "other", "z").unwrap();
    assert_eq!(t1.commit(&mut db), Err(MvccError::Conflict));
}

#[test]
fn snapshot_disjoint_writes_both_commit() {
    let mut db = Database::new();

    let t1 = db.new_transaction_with(IsolationLevel::Snapshot);
    let t2 = db.new_transaction_with(IsolationLevel::Snapshot);

    t1.set(&mut db, "a", "1").unwrap();
    t2.set(&mut db, "b", "2").unwrap();

    assert_eq!(t1.commit(&mut db), Ok(()));
    assert_eq!(t2.commit(&mut db), Ok(()));

    let t3 = db.new_transaction();
    assert_eq!(t3.get(&mut db, "a").unwrap(), Some("1".to_string()));
    assert_eq!(t3.get(&mut db, "b").unwrap(), Some("2".to_string()));
}

#[test]
fn abort_is_logical() {
    let mut db = Database::new();
    db.default_isolation = IsolationLevel::ReadUncommitted;

    let t1 = db.new_transaction();
    t1.set(&mut db, "x", "v").unwrap();
    t1.abort(&mut db).unwrap();

    // even a ReadUncommitted reader never observes the aborted write
    let t2 = db.new_transaction();
    assert_eq!(t2.get(&mut db, "x").unwrap(), None);
}

#[test]
fn abort_twice_is_idempotent() {
    let mut db = Database::new();

    let t1 = db.new_transaction();
    t1.set(&mut db, "x", "v").unwrap();
    assert_eq!(t1.abort(&mut db), Ok(()));
    assert_eq!(t1.abort(&mut db), Ok(()));

    // but aborting a committed transaction is invalid
    let t2 = db.new_transaction();
    t2.commit(&mut db).unwrap();
    assert_eq!(t2.abort(&mut db), Err(MvccError::InvalidState));
}

#[test]
fn operations_on_finished_transaction_fail() {
    let mut db = Database::new();

    let t1 = db.new_transaction();
    t1.commit(&mut db).unwrap();
    assert_eq!(t1.get(&mut db, "x"), Err(MvccError::InvalidState));
    assert_eq!(t1.set(&mut db, "x", "v"), Err(MvccError::InvalidState));
    assert_eq!(t1.delete(&mut db, "x"), Err(MvccError::InvalidState));
    assert_eq!(t1.commit(&mut db), Err(MvccError::InvalidState));

    // a handle whose id was never assigned is invalid too
    let bogus = Transaction::new(IsolationLevel::ReadCommitted, 42, TransactionState::InProgress);
    assert_eq!(bogus.get(&mut db, "x"), Err(MvccError::InvalidState));
}

#[test]
fn delete_writes_a_tombstone() {
    let mut db = Database::new();

    let t1 = db.new_transaction();
    t1.set(&mut db, "x", "v").unwrap();
    t1.commit(&mut db).unwrap();

    let t2 = db.new_transaction();
    t2.delete(&mut db, "x").unwrap();
    // the deleting transaction sees its own tombstone
    assert_eq!(t2.get(&mut db, "x").unwrap(), None);
    // a concurrent ReadCommitted reader still sees the committed value
    let r = db.new_transaction();
    assert_eq!(r.get(&mut db, "x").unwrap(), Some("v".to_string()));
    t2.commit(&mut db).unwrap();

    let t3 = db.new_transaction();
    assert_eq!(t3.get(&mut db, "x").unwrap(), None);
}

#[test]
fn own_writes_are_visible() {
    let mut db = Database::new();

    let t1 = db.new_transaction_with(IsolationLevel::Snapshot);
    assert_eq!(t1.get(&mut db, "x").unwrap(), None);
    t1.set(&mut db, "x", "mine").unwrap();
    assert_eq!(t1.get(&mut db, "x").unwrap(), Some("mine".to_string()));
    t1.set(&mut db, "x", "newer").unwrap();
    assert_eq!(t1.get(&mut db, "x").unwrap(), Some("newer".to_string()));
}
