//! An in-memory key-value store with single-transaction write isolation.
//!
//! A [`Database`] owns a committed mapping from string keys to `i32` values
//! and at most one pending transaction. Writes made through [`Database::put`]
//! are buffered in the pending transaction, invisible to [`Database::get`],
//! until [`Database::commit`] replays them into the committed store in append
//! order; [`Database::rollback`] discards them and leaves the store untouched.

use vstd::prelude::*;
use vstd::hash_map::StringHashMap;

verus! {

/// The two ways a caller can misuse the transaction protocol.
#[derive(Debug, Clone, Copy, PartialEq, Eq, Structural)]
pub enum DatabaseError {
    /// `put`, `commit` or `rollback` was called while no transaction was active.
    NoTransactionInProgress,
    /// `begin_transaction` was called while a transaction was already active.
    TransactionAlreadyInProgress,
}

/// The buffered writes of the one active transaction, in append order.
struct Transaction {
    put_pairs: Vec<(String, i32)>,
}

/// A key-value store whose writes are staged in a transaction and applied
/// atomically on commit.
pub struct Database {
    store: StringHashMap<i32>,
    current_transaction: Option<Transaction>,
}

/// The abstract write log corresponding to a buffered sequence of
/// `(String, i32)` pairs.
pub open spec fn pairs_view(pairs: Seq<(String, i32)>) -> Seq<(Seq<char>, i32)> {
    pairs.map_values(|p: (String, i32)| (p.0@, p.1))
}

/// The mapping that results from replaying `writes` in order into `m`:
/// map-insert semantics, so a later write to a key overwrites an earlier one.
pub open spec fn replay(m: Map<Seq<char>, i32>, writes: Seq<(Seq<char>, i32)>) -> Map<Seq<char>, i32>
    decreases writes.len(),
{
    if writes.len() == 0 {
        m
    } else {
        replay(m, writes.drop_last()).insert(writes.last().0, writes.last().1)
    }
}

/// Law: replaying a write log affects exactly the keys it writes. A key that
/// no record of `writes` names is present in the replayed mapping exactly when
/// it is present in `m`, and with the same value. In particular a key that was
/// never committed stays absent, no matter what transactions are committed
/// around it.
pub proof fn lemma_replay_unwritten_key(m: Map<Seq<char>, i32>, writes: Seq<(Seq<char>, i32)>, k: Seq<char>)
    requires
        forall|j: int| 0 <= j < writes.len() ==> (#[trigger] writes[j]).0 != k,
    ensures
        replay(m, writes).contains_key(k) == m.contains_key(k),
        m.contains_key(k) ==> replay(m, writes)[k] == m[k],
    decreases writes.len(),
{
    if writes.len() > 0 {
        lemma_replay_unwritten_key(m, writes.drop_last(), k);
    }
}

/// Law: when a key is written several times in one write log, replaying the
/// log gives that key the value of its last write. Record `i` is the last
/// write to its key when no later record names the same key; the replayed
/// mapping then holds exactly that record's value.
pub proof fn lemma_replay_last_write_wins(m: Map<Seq<char>, i32>, writes: Seq<(Seq<char>, i32)>, i: int)
    requires
        0 <= i < writes.len(),
        forall|j: int| i < j < writes.len() ==> (#[trigger] writes[j]).0 != writes[i].0,
    ensures
        replay(m, writes).contains_key(writes[i].0),
        replay(m, writes)[writes[i].0] == writes[i].1,
    decreases writes.len(),
{
    if i < writes.len() - 1 {
        lemma_replay_last_write_wins(m, writes.drop_last(), i);
    }
}

impl Database {
    /// The committed mapping: what `get` sees.
    pub closed spec fn committed(&self) -> Map<Seq<char>, i32> {
        self.store@
    }

    /// Whether a transaction is currently active.
    pub closed spec fn in_transaction(&self) -> bool {
        self.current_transaction is Some
    }

    /// The write log of the active transaction, in append order; the empty
    /// sequence when no transaction is active.
    pub closed spec fn pending(&self) -> Seq<(Seq<char>, i32)> {
        match self.current_transaction {
            Some(tx) => pairs_view(tx.put_pairs@),
            None => Seq::<(Seq<char>, i32)>::empty(),
        }
    }

    /// Creates a store with an empty committed mapping and no active
    /// transaction.
    pub fn new() -> (db: Self)
        ensures
            db.committed() == Map::<Seq<char>, i32>::empty(),
            !db.in_transaction(),
    {
        Database {
            store: StringHashMap::new(),
            current_transaction: None,
        }
    }

    /// Starts a transaction with an empty write log. Fails, changing nothing,
    /// if a transaction is already active.
    pub fn begin_transaction(&mut self) -> (r: Result<(), DatabaseError>)
        ensures
            final(self).committed() == old(self).committed(),
            !old(self).in_transaction() ==> ({
                &&& r == Ok::<(), DatabaseError>(())
                &&& final(self).in_transaction()
                &&& final(self).pending() == Seq::<(Seq<char>, i32)>::empty()
            }),
            old(self).in_transaction() ==> ({
                &&& r == Err::<(), DatabaseError>(DatabaseError::TransactionAlreadyInProgress)
                &&& *final(self) == *old(self)
            }),
    {
        match &self.current_transaction {
            Some(_) => Err(DatabaseError::TransactionAlreadyInProgress),
            None => {
                self.current_transaction = Some(Transaction { put_pairs: Vec::new() });
                Ok(())
            }
        }
    }

    /// Appends `(key, value)` to the active transaction's write log without
    /// touching the committed mapping; an earlier write to the same key is
    /// kept in the log and overridden only at commit time. Fails, changing
    /// nothing, if no transaction is active.
    pub fn put(&mut self, key: &str, value: i32) -> (r: Result<(), DatabaseError>)
        ensures
            final(self).committed() == old(self).committed(),
            old(self).in_transaction() ==> ({
                &&& r == Ok::<(), DatabaseError>(())
                &&& final(self).in_transaction()
                &&& final(self).pending() == old(self).pending().push((key@, value))
            }),
            !old(self).in_transaction() ==> ({
                &&& r == Err::<(), DatabaseError>(DatabaseError::NoTransactionInProgress)
                &&& *final(self) == *old(self)
            }),
    {
        match self.current_transaction.take() {
            Some(mut tx) => {
                tx.put_pairs.push((key.to_owned(), value));
                self.current_transaction = Some(tx);
                Ok(())
            }
            None => Err(DatabaseError::NoTransactionInProgress),
        }
    }

    /// Returns the committed value for `key`, or `None` if the key was never
    /// committed. Pending writes of an active transaction, even to this key,
    /// are invisible here. Never fails and never changes the store.
    pub fn get(&self, key: &str) -> (r: Option<i32>)
        ensures
            r == (if self.committed().contains_key(key@) {
                Some(self.committed()[key@])
            } else {
                None::<i32>
            }),
    {
        match self.store.get(key) {
            Some(v) => Some(*v),
            None => None,
        }
    }

    /// Ends the active transaction by replaying its write log, in append
    /// order, into the committed mapping: the last write to each key wins.
    /// Fails, changing nothing, if no transaction is active.
    pub fn commit(&mut self) -> (r: Result<(), DatabaseError>)
        ensures
            old(self).in_transaction() ==> ({
                &&& r == Ok::<(), DatabaseError>(())
                &&& !final(self).in_transaction()
                &&& final(self).committed() == replay(old(self).committed(), old(self).pending())
            }),
            !old(self).in_transaction() ==> ({
                &&& r == Err::<(), DatabaseError>(DatabaseError::NoTransactionInProgress)
                &&& *final(self) == *old(self)
            }),
    {
        match self.current_transaction.take() {
            Some(tx) => {
                let pairs = tx.put_pairs;
                let ghost writes = pairs_view(pairs@);
                let ghost m0 = self.store@;
                let mut i: usize = 0;
                while i < pairs.len()
                    invariant
                        i <= pairs.len(),
                        writes == pairs_view(pairs@),
                        self.store@ == replay(m0, writes.take(i as int)),
                        self.current_transaction is None,
                    decreases pairs.len() - i,
                {
                    let pair = &pairs[i];
                    self.store.insert(pair.0.clone(), pair.1);
                    proof {
                        assert(writes.take(i + 1).drop_last() =~= writes.take(i as int));
                    }
                    i = i + 1;
                }
                proof {
                    assert(writes.take(pairs@.len() as int) =~= writes);
                }
                Ok(())
            }
            None => Err(DatabaseError::NoTransactionInProgress),
        }
    }

    /// Ends the active transaction by discarding its write log: the committed
    /// mapping is left exactly as it was before the matching
    /// `begin_transaction`, which never changed it either. Fails, changing
    /// nothing, if no transaction is active.
    pub fn rollback(&mut self) -> (r: Result<(), DatabaseError>)
        ensures
            final(self).committed() == old(self).committed(),
            old(self).in_transaction() ==> ({
                &&& r == Ok::<(), DatabaseError>(())
                &&& !final(self).in_transaction()
            }),
            !old(self).in_transaction() ==> ({
                &&& r == Err::<(), DatabaseError>(DatabaseError::NoTransactionInProgress)
                &&& *final(self) == *old(self)
            }),
    {
        match self.current_transaction.take() {
            Some(_) => Ok(()),
            None => Err(DatabaseError::NoTransactionInProgress),
        }
    }
}

} // verus!
