//! Per-context presentation counters, kept in ascending context order.

use vstd::prelude::*;
use crate::protocol::MAX_PRESENTATION_CONTEXTS;

verus! {

/// Lexicographic order on byte strings: `a` comes before `b`.
pub open spec fn lex_less(a: Seq<u8>, b: Seq<u8>) -> bool {
    exists|i: int| 0 <= i < a.len() && i < b.len() && a.take(i) == b.take(i) && a[i] < b[i]
}

/// The first byte where two strings differ decides their order: the
/// string with the smaller byte there comes first, and not the other way.
pub proof fn lemma_lex_first_difference(a: Seq<u8>, b: Seq<u8>, i: int)
    requires
        a.len() == b.len(),
        0 <= i < a.len(),
        a.take(i) == b.take(i),
        a[i] < b[i],
    ensures
        lex_less(a, b),
        !lex_less(b, a),
{
    if lex_less(b, a) {
        let j = choose|j: int| 0 <= j < b.len() && j < a.len() && b.take(j) == a.take(j) && b[j] < a[j];
        if j < i {
            assert(a.take(i)[j] == b.take(i)[j]);
            assert(a[j] == a.take(i)[j] && b[j] == b.take(i)[j]);
        } else if i < j {
            assert(b.take(j)[i] == a.take(j)[i]);
            assert(a[i] == a.take(j)[i] && b[i] == b.take(j)[i]);
        }
        assert(false);
    }
}

/// Lexicographic order is transitive on strings of one length.
pub proof fn lemma_lex_transitive(a: Seq<u8>, b: Seq<u8>, c: Seq<u8>)
    requires
        a.len() == b.len(),
        b.len() == c.len(),
        lex_less(a, b),
        lex_less(b, c),
    ensures
        lex_less(a, c),
{
    let i = choose|i: int| 0 <= i < a.len() && i < b.len() && a.take(i) == b.take(i) && a[i] < b[i];
    let j = choose|j: int| 0 <= j < b.len() && j < c.len() && b.take(j) == c.take(j) && b[j] < c[j];
    if i < j {
        assert(b.take(i) == c.take(j).take(i));
        assert(c.take(j).take(i) =~= c.take(i));
        assert(b.take(j)[i] == b[i]);
        assert(a.take(i) == c.take(i) && a[i] < c[i]);
    } else if j < i {
        assert(a.take(j) == a.take(i).take(j));
        assert(a.take(i).take(j) =~= a.take(j));
        assert(b.take(i).take(j) =~= b.take(j));
        assert(a.take(i)[j] == b.take(i)[j]);
        assert(a.take(j) == c.take(j) && a[j] < c[j]);
    } else {
        assert(a.take(i) == c.take(i) && a[i] < c[i]);
    }
}

/// No string comes before itself.
pub proof fn lemma_lex_irreflexive(a: Seq<u8>)
    ensures
        !lex_less(a, a),
{
}

/// Compare two digests lexicographically: negative, zero, or positive as
/// `a` comes before, equals, or comes after `b`.
pub fn order_digests(a: &[u8; 32], b: &[u8; 32]) -> (order: i8)
    ensures
        order < 0 <==> lex_less(a@, b@),
        order == 0 <==> a@ == b@,
        order > 0 <==> lex_less(b@, a@),
{
    for index in 0..32
        invariant
            a@.take(index as int) == b@.take(index as int),
    {
        if a[index] != b[index] {
            let ghost i = index as int;
            proof {
                assert forall|j: int|
                    0 <= j < 32 && a@.take(j) == b@.take(j) implies a@[j] >= b@[j] || b@[j] >= a@[j] by {}
                if a@[i] < b@[i] {
                    assert(lex_less(a@, b@));
                    assert(!lex_less(b@, a@)) by {
                        if lex_less(b@, a@) {
                            let j = choose|j: int|
                                0 <= j < 32 && b@.take(j) == a@.take(j) && b@[j] < a@[j];
                            if j < i {
                                assert(a@.take(i)[j] == b@.take(i)[j]);
                            } else if j > i {
                                assert(a@.take(j)[i] == b@.take(j)[i]);
                            }
                        }
                    }
                } else {
                    assert(lex_less(b@, a@));
                    assert(!lex_less(a@, b@)) by {
                        if lex_less(a@, b@) {
                            let j = choose|j: int|
                                0 <= j < 32 && a@.take(j) == b@.take(j) && a@[j] < b@[j];
                            if j < i {
                                assert(a@.take(i)[j] == b@.take(i)[j]);
                            } else if j > i {
                                assert(a@.take(j)[i] == b@.take(j)[i]);
                            }
                        }
                    }
                }
                assert(a@ != b@) by {
                    assert(a@[i] != b@[i]);
                }
            }
            if a[index] < b[index] {
                return -1;
            } else {
                return 1;
            }
        }
        assert(a@.take(index + 1) =~= a@.take(index as int).push(a@[index as int]));
        assert(b@.take(index + 1) =~= b@.take(index as int).push(b@[index as int]));
    }
    assert(a@.take(32) =~= a@);
    assert(b@.take(32) =~= b@);
    proof {
        lemma_lex_irreflexive(a@);
    }
    0
}

/// Whether a context has a counter entry.
pub open spec fn has_context(entries: Seq<(Seq<u8>, u32)>, context: Seq<u8>) -> bool {
    exists|i: int| 0 <= i < entries.len() && entries[i].0 == context
}

/// The next nonce recorded for a context, zero if it has no entry.
pub open spec fn nonce_of(entries: Seq<(Seq<u8>, u32)>, context: Seq<u8>) -> u32 {
    if has_context(entries, context) {
        entries[choose|i: int| 0 <= i < entries.len() && entries[i].0 == context].1
    } else {
        0
    }
}

/// Entries in strictly ascending context order, so no context repeats.
pub open spec fn ascending(entries: Seq<(Seq<u8>, u32)>) -> bool {
    forall|i: int, j: int| 0 <= i < j < entries.len() ==> lex_less(entries[i].0, entries[j].0)
}

/// Well-formed counters: 32-byte contexts in ascending order, each with a
/// nonzero next nonce, and at most `bound` of them.
pub open spec fn valid_counters(entries: Seq<(Seq<u8>, u32)>, bound: nat) -> bool {
    &&& ascending(entries)
    &&& entries.len() <= bound
    &&& forall|i: int| 0 <= i < entries.len() ==> #[trigger] entries[i].1 > 0 && entries[i].0.len() == 32
}

/// In well-formed counters a context has an entry exactly when its next
/// nonce is nonzero.
pub proof fn lemma_zero_iff_unknown(entries: Seq<(Seq<u8>, u32)>, bound: nat, context: Seq<u8>)
    requires
        valid_counters(entries, bound),
    ensures
        (nonce_of(entries, context) == 0) == !has_context(entries, context),
{
    if has_context(entries, context) {
        let j = choose|j: int| 0 <= j < entries.len() && entries[j].0 == context;
        lemma_nonce_at(entries, j);
        assert(entries[j].1 > 0);
    }
}

/// In ascending entries, an entry's context finds that entry's nonce.
pub proof fn lemma_nonce_at(entries: Seq<(Seq<u8>, u32)>, j: int)
    requires
        ascending(entries),
        0 <= j < entries.len(),
    ensures
        has_context(entries, entries[j].0),
        nonce_of(entries, entries[j].0) == entries[j].1,
{
    let context = entries[j].0;
    lemma_lex_irreflexive(context);
    assert(has_context(entries, context));
    let i = choose|i: int| 0 <= i < entries.len() && entries[i].0 == context;
    if i < j {
        assert(lex_less(entries[i].0, entries[j].0));
    } else if j < i {
        assert(lex_less(entries[j].0, entries[i].0));
    }
}

/// The next presentation nonce of each context a credential has used, in
/// ascending context order, for at most [`MAX_PRESENTATION_CONTEXTS`]
/// contexts.
///
/// A sorted vector rather than an ordered map: vstd gives an ordered map's
/// contract only for keys it knows to obey `Ord`'s model, which are the
/// integer types, and these keys are 32-byte digests. The ordering and
/// uniqueness such a map would keep are this type's invariant instead.
pub struct Counters {
    entries: Vec<([u8; 32], u32)>,
}

/// The contexts and nonces of stored entries.
pub open spec fn entry_views(entries: Seq<([u8; 32], u32)>) -> Seq<(Seq<u8>, u32)> {
    Seq::new(entries.len(), |i: int| (entries[i].0@, entries[i].1))
}

impl View for Counters {
    type V = Seq<(Seq<u8>, u32)>;

    closed spec fn view(&self) -> Seq<(Seq<u8>, u32)> {
        entry_views(self.entries@)
    }
}

impl Counters {
    /// Stored counters are always well formed.
    #[verifier::type_invariant]
    pub open spec fn well_formed(self) -> bool {
        valid_counters(self@, MAX_PRESENTATION_CONTEXTS as nat)
    }

    /// No counters yet.
    pub fn new() -> (counters: Self)
        ensures
            counters@ == Seq::<(Seq<u8>, u32)>::empty(),
    {
        let counters = Counters { entries: Vec::new() };
        assert(counters@ =~= Seq::<(Seq<u8>, u32)>::empty());
        counters
    }

    /// Number of contexts with a counter.
    pub fn len(&self) -> (count: usize)
        ensures
            count == self@.len(),
            valid_counters(self@, MAX_PRESENTATION_CONTEXTS as nat),
    {
        proof {
            use_type_invariant(self);
        }
        self.entries.len()
    }

    /// Entry `index`, in ascending context order.
    pub fn entry(&self, index: usize) -> (entry: ([u8; 32], u32))
        requires
            index < self@.len(),
        ensures
            entry.0@ == self@[index as int].0,
            entry.1 == self@[index as int].1,
    {
        self.entries[index]
    }

    /// Where a context's entry is, or where it would go.
    fn search(&self, context: &[u8; 32]) -> (found: (usize, bool))
        ensures
            found.0 <= self@.len(),
            found.1 ==> found.0 < self@.len() && self@[found.0 as int].0 == context@,
            !found.1 ==> !has_context(self@, context@),
            forall|i: int| 0 <= i < found.0 ==> lex_less(#[trigger] self@[i].0, context@),
            !found.1 && found.0 < self@.len() ==> lex_less(context@, self@[found.0 as int].0),
    {
        proof {
            use_type_invariant(self);
        }
        let len = self.entries.len();
        for index in 0..len
            invariant
                len == self@.len(),
                valid_counters(self@, MAX_PRESENTATION_CONTEXTS as nat),
                forall|i: int| 0 <= i < index ==> lex_less(#[trigger] self@[i].0, context@),
        {
            let order = order_digests(&self.entries[index].0, context);
            assert(self@[index as int].0 == self.entries@[index as int].0@);
            if order == 0 {
                return (index, true);
            }
            if order > 0 {
                proof {
                    assert forall|j: int| 0 <= j < self@.len() implies self@[j].0 != context@ by {
                        if j < index {
                            lemma_lex_irreflexive(context@);
                        } else if j > index {
                            assert(lex_less(self@[index as int].0, self@[j].0));
                            if self@[j].0 == context@ {
                                lemma_lex_irreflexive(context@);
                                lemma_lex_transitive(context@, self@[index as int].0, context@);
                            }
                        }
                    }
                }
                return (index, false);
            }
        }
        proof {
            assert forall|j: int| 0 <= j < self@.len() implies self@[j].0 != context@ by {
                lemma_lex_irreflexive(context@);
            }
        }
        (len, false)
    }

    /// Whether a context has a counter.
    pub fn contains(&self, context: &[u8; 32]) -> (found: bool)
        ensures
            found == has_context(self@, context@),
            valid_counters(self@, MAX_PRESENTATION_CONTEXTS as nat),
    {
        proof {
            use_type_invariant(self);
        }
        let (_, found) = self.search(context);
        found
    }

    /// The next nonce for a context, zero if it has no counter.
    pub fn get(&self, context: &[u8; 32]) -> (nonce: u32)
        ensures
            nonce == nonce_of(self@, context@),
    {
        proof {
            use_type_invariant(self);
        }
        let (index, found) = self.search(context);
        if found {
            proof {
                lemma_nonce_at(self@, index as int);
            }
            self.entries[index].1
        } else {
            0
        }
    }

    /// Record a nonzero next nonce for a context, adding its entry if it
    /// has none.
    pub fn set(&mut self, context: [u8; 32], nonce: u32)
        requires
            nonce > 0,
            has_context(old(self)@, context@) || old(self)@.len() < MAX_PRESENTATION_CONTEXTS,
        ensures
            forall|c: Seq<u8>| #[trigger] has_context(final(self)@, c) == (has_context(old(self)@, c) || c == context@),
            forall|c: Seq<u8>| #[trigger] nonce_of(final(self)@, c) == if c == context@ {
                nonce
            } else {
                nonce_of(old(self)@, c)
            },
            final(self)@.len() == old(self)@.len() + if has_context(old(self)@, context@) { 0int } else { 1int },
            valid_counters(final(self)@, MAX_PRESENTATION_CONTEXTS as nat),
    {
        proof {
            use_type_invariant(&*self);
        }
        let (index, found) = self.search(&context);
        let ghost before = self@;
        let mut entries: Vec<([u8; 32], u32)> = Vec::new();
        std::mem::swap(&mut entries, &mut self.entries);
        assert(entry_views(entries@) == before);
        if found {
            entries.set(index, (context, nonce));
        } else {
            entries.insert(index, (context, nonce));
        }
        let ghost after = entry_views(entries@);
        proof {
            if found {
                assert(after =~= before.update(index as int, (context@, nonce)));
                assert(ascending(after)) by {
                    assert forall|i: int, j: int| 0 <= i < j < after.len() implies lex_less(after[i].0, after[j].0) by {
                        assert(lex_less(before[i].0, before[j].0));
                    }
                }
            } else {
                assert(after =~= before.insert(index as int, (context@, nonce)));
                assert(ascending(after)) by {
                    assert forall|i: int, j: int| 0 <= i < j < after.len() implies lex_less(after[i].0, after[j].0) by {
                        if j < index {
                            assert(lex_less(before[i].0, before[j].0));
                        } else if j == index {
                        } else if i == index {
                            if j - 1 > index {
                                lemma_lex_transitive(context@, before[index as int].0, before[j - 1].0);
                            }
                        } else if i < index {
                            if j - 1 > index {
                                lemma_lex_transitive(before[i].0, context@, before[index as int].0);
                                lemma_lex_transitive(before[i].0, before[index as int].0, before[j - 1].0);
                            } else {
                                lemma_lex_transitive(before[i].0, context@, before[j - 1].0);
                            }
                        } else {
                            assert(lex_less(before[i - 1].0, before[j - 1].0));
                        }
                    }
                }
            }
            assert(valid_counters(after, MAX_PRESENTATION_CONTEXTS as nat));
            assert forall|c: Seq<u8>| #[trigger] has_context(after, c) == (has_context(before, c) || c == context@) by {
                if has_context(before, c) {
                    let j = choose|j: int| 0 <= j < before.len() && before[j].0 == c;
                    if found {
                        if j == index {
                            assert(after[j].0 == context@);
                        } else {
                            assert(after[j].0 == c);
                        }
                    } else if j < index {
                        assert(after[j].0 == c);
                    } else {
                        assert(after[j + 1].0 == c);
                    }
                }
                if c == context@ {
                    assert(after[index as int].0 == c);
                }
                if has_context(after, c) && c != context@ {
                    let j = choose|j: int| 0 <= j < after.len() && after[j].0 == c;
                    if found {
                        assert(before[j].0 == c);
                    } else if j < index {
                        assert(before[j].0 == c);
                    } else {
                        assert(j != index);
                        assert(before[j - 1].0 == c);
                    }
                }
            }
            assert forall|c: Seq<u8>| #[trigger] nonce_of(after, c) == if c == context@ {
                nonce
            } else {
                nonce_of(before, c)
            } by {
                if c == context@ {
                    lemma_nonce_at(after, index as int);
                } else if has_context(before, c) {
                    let j = choose|j: int| 0 <= j < before.len() && before[j].0 == c;
                    lemma_nonce_at(before, j);
                    if found || j < index {
                        lemma_nonce_at(after, j);
                    } else {
                        lemma_nonce_at(after, j + 1);
                    }
                }
            }
        }
        self.entries = entries;
    }

    /// Append an entry whose context comes after every stored context.
    pub fn push_last(&mut self, context: [u8; 32], nonce: u32)
        requires
            nonce > 0,
            old(self)@.len() < MAX_PRESENTATION_CONTEXTS,
            old(self)@.len() > 0 ==> lex_less(old(self)@.last().0, context@),
        ensures
            final(self)@ == old(self)@.push((context@, nonce)),
    {
        proof {
            use_type_invariant(&*self);
        }
        let ghost before = self@;
        let mut entries: Vec<([u8; 32], u32)> = Vec::new();
        std::mem::swap(&mut entries, &mut self.entries);
        assert(entry_views(entries@) == before);
        entries.push((context, nonce));
        let ghost after = entry_views(entries@);
        proof {
            assert(after =~= before.push((context@, nonce)));
            assert forall|i: int, j: int| 0 <= i < j < after.len() implies lex_less(after[i].0, after[j].0) by {
                if j == before.len() && i < before.len() - 1 {
                    lemma_lex_transitive(before[i].0, before.last().0, context@);
                }
            }
        }
        self.entries = entries;
    }
}

} // verus!
