//! Atomic storage for accepted context-scoped presentation tags.

use vstd::prelude::*;
use crate::markers::Error;
use crate::wire::bytes_eq;

verus! {

/// Atomic persistence required to enforce a scoped presentation limit.
///
/// `insert_if_absent` must be one linearizable operation across every
/// verifier replica for the same issuer and presentation scope. It must not
/// return `true` until the tag is durable. The application must perform the
/// protected action only after this operation returns `true`.
pub trait TagStore: Send {
    /// The `(scope, tag)` pairs accepted so far, as the store's own model
    /// of what it has made durable.
    spec fn accepted(&self) -> Set<(Seq<u8>, Seq<u8>)>;

    /// Whether this store answers every insert with `Ok`: `true` only for
    /// a store that cannot fail, such as one held in memory.
    spec fn never_fails(&self) -> bool;

    /// Atomically insert `(scope, tag)`.
    ///
    /// Returns `true` exactly for the caller that inserted the first durable
    /// copy, and `false` when the tag was already present.
    ///
    /// # Errors
    ///
    /// Returns an error when the store cannot complete the atomic durable
    /// operation.
    fn insert_if_absent(&mut self, scope: [u8; 32], tag: [u8; 32]) -> (inserted: Result<bool, Error>)
        ensures
            inserted == Ok::<bool, Error>(true) ==> !old(self).accepted().contains((scope@, tag@))
                && final(self).accepted() == old(self).accepted().insert((scope@, tag@)),
            inserted == Ok::<bool, Error>(false) ==> old(self).accepted().contains((scope@, tag@))
                && final(self).accepted() == old(self).accepted(),
            old(self).never_fails() ==> inserted is Ok,
    ;
}

/// Process-local reference tag store.
///
/// Use this store for tests and examples. It is not crash-safe or shared
/// across verifier replicas. Restoring an older snapshot can admit previously
/// accepted presentations again.
///
/// The pairs are kept in a vector with a no-duplicates invariant rather
/// than a hash set: vstd states a hash set's contract only for keys it
/// knows to obey the hash-table key model, which are the integer types,
/// and these keys are pairs of 32-byte digests.
pub struct MemoryTagStore {
    tags: Vec<([u8; 32], [u8; 32])>,
}

/// The byte views of stored pairs.
pub open spec fn pair_views(tags: Seq<([u8; 32], [u8; 32])>) -> Seq<(Seq<u8>, Seq<u8>)> {
    tags.map_values(|p: ([u8; 32], [u8; 32])| (p.0@, p.1@))
}

impl MemoryTagStore {
    /// The accepted pairs, in insertion order.
    pub closed spec fn entries(&self) -> Seq<(Seq<u8>, Seq<u8>)> {
        pair_views(self.tags@)
    }

    #[verifier::type_invariant]
    spec fn no_duplicates(&self) -> bool {
        self.entries().no_duplicates()
    }

    /// An empty store.
    pub fn new() -> (store: Self)
        ensures
            store.entries() == Seq::<(Seq<u8>, Seq<u8>)>::empty(),
    {
        let store = MemoryTagStore { tags: Vec::new() };
        assert(store.entries() =~= Seq::<(Seq<u8>, Seq<u8>)>::empty());
        store
    }

    /// Number of accepted `(scope, tag)` pairs in this process.
    pub fn len(&self) -> (count: usize)
        ensures
            count == self.entries().len(),
            count == self.entries().to_set().len(),
    {
        proof {
            use_type_invariant(self);
            self.entries().unique_seq_to_set();
        }
        self.tags.len()
    }

    /// Whether the process-local store is empty.
    pub fn is_empty(&self) -> (empty: bool)
        ensures
            empty == (self.entries().len() == 0),
    {
        self.tags.len() == 0
    }

    /// Whether `(scope, tag)` was accepted.
    pub fn contains(&self, scope: &[u8; 32], tag: &[u8; 32]) -> (found: bool)
        ensures
            found == self.entries().contains((scope@, tag@)),
    {
        let ghost entries = self.entries();
        for index in 0..self.tags.len()
            invariant
                entries == pair_views(self.tags@),
                forall|j: int| 0 <= j < index ==> entries[j] != (scope@, tag@),
        {
            let entry = &self.tags[index];
            let same_scope = bytes_eq(vstd::array::array_as_slice(&entry.0), vstd::array::array_as_slice(scope));
            let same_tag = bytes_eq(vstd::array::array_as_slice(&entry.1), vstd::array::array_as_slice(tag));
            if same_scope && same_tag {
                assert(entries[index as int] == (scope@, tag@));
                return true;
            }
        }
        false
    }
}

impl Default for MemoryTagStore {
    fn default() -> (store: Self)
        ensures
            store.entries() == Seq::<(Seq<u8>, Seq<u8>)>::empty(),
    {
        MemoryTagStore::new()
    }
}

impl TagStore for MemoryTagStore {
    open spec fn accepted(&self) -> Set<(Seq<u8>, Seq<u8>)> {
        self.entries().to_set()
    }

    open spec fn never_fails(&self) -> bool {
        true
    }

    fn insert_if_absent(&mut self, scope: [u8; 32], tag: [u8; 32]) -> (inserted: Result<bool, Error>)
        ensures
            inserted is Ok,
            memory_insert_step(old(self).entries(), final(self).entries(), (scope@, tag@), inserted),
            inserted == Ok::<bool, Error>(true) ==> final(self).entries() == old(self).entries().push(
                (scope@, tag@),
            ),
            inserted == Ok::<bool, Error>(false) ==> final(self).entries() == old(self).entries(),
    {
        proof {
            use_type_invariant(&*self);
        }
        if self.contains(&scope, &tag) {
            proof {
                assert(self.entries().to_set().contains((scope@, tag@)));
            }
            return Ok(false);
        }
        let ghost before = self.entries();
        let mut tags: Vec<([u8; 32], [u8; 32])> = Vec::new();
        proof {
            assert(pair_views(tags@) =~= Seq::<(Seq<u8>, Seq<u8>)>::empty());
        }
        std::mem::swap(&mut tags, &mut self.tags);
        tags.push((scope, tag));
        proof {
            assert(pair_views(tags@) =~= before.push((scope@, tag@)));
            assert(!before.to_set().contains((scope@, tag@)));
            assert forall|i: int, j: int|
                0 <= i < pair_views(tags@).len() && 0 <= j < pair_views(tags@).len() && i != j implies
                pair_views(tags@)[i] != pair_views(tags@)[j] by {
                if i < before.len() && j < before.len() {
                } else if i == before.len() {
                    assert(before.contains(before[j]));
                } else {
                    assert(before.contains(before[i]));
                }
            }
        }
        self.tags = tags;
        proof {
            before.lemma_push_to_set_commute((scope@, tag@));
        }
        Ok(true)
    }
}

/// One `insert_if_absent` on a memory store, over its entries: a fresh key
/// is appended and answered `Ok(true)`; a stored key is answered
/// `Ok(false)` and nothing changes.
pub open spec fn memory_insert_step(
    before: Seq<(Seq<u8>, Seq<u8>)>,
    after: Seq<(Seq<u8>, Seq<u8>)>,
    key: (Seq<u8>, Seq<u8>),
    answer: Result<bool, Error>,
) -> bool {
    &&& answer is Ok
    &&& answer == Ok::<bool, Error>(true) ==> !before.contains(key) && after == before.push(key)
    &&& answer == Ok::<bool, Error>(false) ==> before.contains(key) && after == before
}

/// How many of `answers` are `Ok(true)`.
pub open spec fn fresh_count(answers: Seq<Result<bool, Error>>) -> nat
    decreases answers.len(),
{
    if answers.len() == 0 {
        0
    } else {
        fresh_count(answers.drop_last()) + if answers.last() == Ok::<bool, Error>(true) {
            1nat
        } else {
            0nat
        }
    }
}

/// Whether `history` is a run of inserts into a memory store that starts
/// empty: step `i` inserts `keys[i]`, answers `answers[i]`, and moves the
/// entries from `history[i]` to `history[i + 1]`.
pub open spec fn memory_history(
    history: Seq<Seq<(Seq<u8>, Seq<u8>)>>,
    keys: Seq<(Seq<u8>, Seq<u8>)>,
    answers: Seq<Result<bool, Error>>,
) -> bool {
    &&& history.len() == keys.len() + 1
    &&& answers.len() == keys.len()
    &&& history[0] == Seq::<(Seq<u8>, Seq<u8>)>::empty()
    &&& forall|i: int|
        0 <= i < keys.len() ==> #[trigger] memory_insert_step(history[i], history[i + 1], keys[i], answers[i])
}

/// A memory store counts distinct pairs: after any run of inserts from an
/// empty store, it holds each inserted pair once and nothing else, and its
/// length is the number of distinct pairs inserted, which is the number of
/// inserts answered `Ok(true)`.
pub proof fn lemma_memory_store_history(
    history: Seq<Seq<(Seq<u8>, Seq<u8>)>>,
    keys: Seq<(Seq<u8>, Seq<u8>)>,
    answers: Seq<Result<bool, Error>>,
)
    requires
        memory_history(history, keys, answers),
    ensures
        history.last().no_duplicates(),
        history.last().to_set() == keys.to_set(),
        history.last().len() == keys.to_set().len(),
        history.last().len() == fresh_count(answers),
    decreases keys.len(),
{
    let n = keys.len() as int;
    let last = history.last();
    if n == 0 {
        assert(keys.to_set() =~= Set::<(Seq<u8>, Seq<u8>)>::empty());
        assert(last.to_set() =~= Set::<(Seq<u8>, Seq<u8>)>::empty());
    } else {
        let h = history.drop_last();
        let k = keys.drop_last();
        let a = answers.drop_last();
        assert forall|i: int| 0 <= i < k.len() implies #[trigger] memory_insert_step(h[i], h[i + 1], k[i], a[i]) by {
            assert(memory_insert_step(history[i], history[i + 1], keys[i], answers[i]));
        }
        lemma_memory_store_history(h, k, a);
        let before = h.last();
        assert(before == history[n - 1]);
        assert(memory_insert_step(history[n - 1], history[n], keys[n - 1], answers[n - 1]));
        let key = keys[n - 1];
        assert(keys =~= k.push(key));
        assert(answers.drop_last() == a);
        k.lemma_push_to_set_commute(key);
        if answers[n - 1] == Ok::<bool, Error>(true) {
            before.lemma_push_to_set_commute(key);
            assert(last.no_duplicates()) by {
                assert forall|i: int, j: int| 0 <= i < last.len() && 0 <= j < last.len() && i != j implies
                    last[i] != last[j] by {
                    if i < before.len() && j < before.len() {
                    } else if i == before.len() {
                        assert(before.contains(before[j]));
                    } else {
                        assert(before.contains(before[i]));
                    }
                }
            }
            assert(before.to_set().insert(key) == last.to_set());
        } else {
            assert(answers[n - 1] is Ok);
            assert(answers[n - 1] == Ok::<bool, Error>(answers[n - 1]->Ok_0));
            assert(answers[n - 1] == Ok::<bool, Error>(false));
            assert(last == before);
            assert(before.contains(key));
            assert(before.to_set().contains(key));
            assert(before.to_set().insert(key) =~= before.to_set());
        }
        last.unique_seq_to_set();
    }
}

} // verus!
