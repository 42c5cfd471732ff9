//! An association from byte-string keys to values, seen in contracts as a
//! mathematical map. Later insertions of an existing key replace its value.

use vstd::prelude::*;

verus! {

/// Whether two byte slices hold the same bytes.
pub fn bytes_eq(a: &[u8], b: &[u8]) -> (r: bool)
    ensures
        r <==> a@ == b@,
{
    if a.len() != b.len() {
        return false;
    }
    let n = a.len();
    let mut i: usize = 0;
    while i < n
        invariant
            i <= n,
            n == a@.len() == b@.len(),
            forall|j: int| 0 <= j < i ==> a@[j] == b@[j],
        decreases n - i,
    {
        if a[i] != b[i] {
            return false;
        }
        i = i + 1;
    }
    proof {
        assert(a@ =~= b@);
    }
    true
}

/// The map described by a run of key/value entries, later entries replacing
/// earlier ones.
pub open spec fn spec_entries_map<V: View>(es: Seq<(Vec<u8>, V)>) -> Map<Seq<u8>, V::V>
    decreases es.len(),
{
    if es.len() == 0 {
        Map::empty()
    } else {
        spec_entries_map(es.drop_last()).insert(es.last().0@, es.last().1@)
    }
}

/// A key occurs in the entry map exactly when some entry holds it.
pub proof fn lemma_entries_map_contains<V: View>(es: Seq<(Vec<u8>, V)>, k: Seq<u8>)
    ensures
        spec_entries_map(es).contains_key(k) <==> exists|i: int|
            0 <= i < es.len() && es[i].0@ == k,
    decreases es.len(),
{
    if es.len() > 0 {
        lemma_entries_map_contains(es.drop_last(), k);
        if exists|i: int| 0 <= i < es.len() && es[i].0@ == k {
            let i = choose|i: int| 0 <= i < es.len() && es[i].0@ == k;
            if i < es.len() - 1 {
                assert(es.drop_last()[i].0@ == k);
            }
        }
    }
}

/// The entry map is finite.
pub proof fn lemma_entries_map_finite<V: View>(es: Seq<(Vec<u8>, V)>)
    ensures
        spec_entries_map(es).dom().finite(),
    decreases es.len(),
{
    if es.len() > 0 {
        lemma_entries_map_finite(es.drop_last());
    }
}

/// No two entries hold the same key.
pub open spec fn unique_keys<V>(es: Seq<(Vec<u8>, V)>) -> bool {
    forall|i: int, j: int| 0 <= i < j < es.len() ==> es[i].0@ != es[j].0@
}

/// With unique keys, each entry is found in the entry map unchanged.
pub proof fn lemma_entries_map_index<V: View>(es: Seq<(Vec<u8>, V)>, i: int)
    requires
        unique_keys(es),
        0 <= i < es.len(),
    ensures
        spec_entries_map(es).contains_key(es[i].0@),
        spec_entries_map(es)[es[i].0@] == es[i].1@,
    decreases es.len(),
{
    if i < es.len() - 1 {
        assert(unique_keys(es.drop_last()));
        assert(es.drop_last()[i] == es[i]);
        lemma_entries_map_index(es.drop_last(), i);
    }
}

/// With unique keys, the entry map has one element per entry.
pub proof fn lemma_entries_map_len<V: View>(es: Seq<(Vec<u8>, V)>)
    requires
        unique_keys(es),
    ensures
        spec_entries_map(es).dom().finite(),
        spec_entries_map(es).len() == es.len(),
    decreases es.len(),
{
    lemma_entries_map_finite(es);
    if es.len() > 0 {
        assert(unique_keys(es.drop_last()));
        lemma_entries_map_len(es.drop_last());
        lemma_entries_map_contains(es.drop_last(), es.last().0@);
        assert(forall|i: int| 0 <= i < es.len() - 1 ==> es.drop_last()[i] == es[i]);
        assert(!spec_entries_map(es.drop_last()).contains_key(es.last().0@));
        vstd::set::axiom_set_insert_len(spec_entries_map(es.drop_last()).dom(), es.last().0@);
    }
}

/// An association from byte-string keys to values.
pub struct ByteMap<V> {
    entries: Vec<(Vec<u8>, V)>,
}

impl<V: View> View for ByteMap<V> {
    type V = Map<Seq<u8>, V::V>;

    closed spec fn view(&self) -> Map<Seq<u8>, V::V> {
        spec_entries_map(self.entries@)
    }
}

impl<V: View> ByteMap<V> {
    /// Internal shape every operation preserves: one entry per key.
    pub closed spec fn wf(&self) -> bool {
        unique_keys(self.entries@)
    }

    /// The empty association.
    pub fn new() -> (r: ByteMap<V>)
        ensures
            r.wf(),
            r@ == Map::<Seq<u8>, V::V>::empty(),
    {
        ByteMap { entries: Vec::new() }
    }

    /// How many keys are present.
    pub fn len(&self) -> (r: usize)
        requires
            self.wf(),
        ensures
            r == self@.len(),
    {
        proof {
            lemma_entries_map_len(self.entries@);
        }
        self.entries.len()
    }

    /// The value under `k`, if present.
    pub fn get(&self, k: &[u8]) -> (r: Option<&V>)
        requires
            self.wf(),
        ensures
            match r {
                Some(v) => self@.contains_key(k@) && v@ == self@[k@],
                None => !self@.contains_key(k@),
            },
    {
        let n = self.entries.len();
        let mut i: usize = 0;
        while i < n
            invariant
                i <= n,
                n == self.entries@.len(),
                self.wf(),
                forall|j: int| 0 <= j < i ==> self.entries@[j].0@ != k@,
            decreases n - i,
        {
            if bytes_eq(self.entries[i].0.as_slice(), k) {
                proof {
                    lemma_entries_map_index(self.entries@, i as int);
                }
                return Some(&self.entries[i].1);
            }
            i = i + 1;
        }
        proof {
            lemma_entries_map_contains(self.entries@, k@);
        }
        None
    }

    /// Whether `k` is present.
    pub fn contains(&self, k: &[u8]) -> (r: bool)
        requires
            self.wf(),
        ensures
            r <==> self@.contains_key(k@),
    {
        match self.get(k) {
            Some(_) => true,
            None => false,
        }
    }

    /// Bind `k` to `v`, replacing any earlier binding.
    pub fn insert(&mut self, k: Vec<u8>, v: V)
        requires
            old(self).wf(),
        ensures
            final(self).wf(),
            final(self)@ == old(self)@.insert(k@, v@),
    {
        let n = self.entries.len();
        let mut i: usize = 0;
        while i < n
            invariant
                i <= n,
                n == self.entries@.len(),
                self.wf(),
                self.entries@ == old(self).entries@,
                forall|j: int| 0 <= j < i ==> self.entries@[j].0@ != k@,
            decreases n - i,
        {
            if bytes_eq(self.entries[i].0.as_slice(), k.as_slice()) {
                proof {
                    lemma_entries_map_update(self.entries@, i as int, k@, v@);
                }
                self.entries[i] = (k, v);
                return ;
            }
            i = i + 1;
        }
        proof {
            lemma_entries_map_contains(self.entries@, k@);
            assert(self.entries@.push((k, v)).drop_last() =~= self.entries@);
        }
        self.entries.push((k, v));
    }

    /// Drop every binding.
    pub fn clear(&mut self)
        ensures
            final(self).wf(),
            final(self)@ == Map::<Seq<u8>, V::V>::empty(),
    {
        self.entries.clear();
    }
}

/// Replacing the entry that holds a key rewrites that key's binding.
proof fn lemma_entries_map_update<V: View>(es: Seq<(Vec<u8>, V)>, i: int, k: Seq<u8>, v: V::V)
    requires
        unique_keys(es),
        0 <= i < es.len(),
        es[i].0@ == k,
    ensures
        forall|e: (Vec<u8>, V)|
            e.0@ == k && e.1@ == v ==> spec_entries_map(es.update(i, e)) == spec_entries_map(
                es,
            ).insert(k, v),
    decreases es.len(),
{
    assert forall|e: (Vec<u8>, V)|
        e.0@ == k && e.1@ == v implies spec_entries_map(es.update(i, e)) == spec_entries_map(
        es,
    ).insert(k, v) by {
        if i == es.len() - 1 {
            assert(es.update(i, e).drop_last() =~= es.drop_last());
            assert(es.update(i, e).last() == e);
            assert(spec_entries_map(es.drop_last()).insert(es.last().0@, es.last().1@).insert(k, v)
                =~= spec_entries_map(es.drop_last()).insert(k, v));
        } else {
            assert(unique_keys(es.drop_last()));
            assert(es.drop_last()[i] == es[i]);
            lemma_entries_map_update(es.drop_last(), i, k, v);
            let e2 = e;
            assert(es.update(i, e2).drop_last() =~= es.drop_last().update(i, e2));
            assert(es.update(i, e2).last() == es.last());
            assert(es.last().0@ != k);
            assert(spec_entries_map(es.drop_last()).insert(k, v).insert(
                es.last().0@,
                es.last().1@,
            ) =~= spec_entries_map(es.drop_last()).insert(es.last().0@, es.last().1@).insert(k, v));
        }
    }
}

} // verus!
