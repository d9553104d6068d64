//! The header map of a request or response: a mapping from header name to
//! header value with unique keys, where inserting under an existing name
//! keeps its place and replaces the value, so the last occurrence wins.

use vstd::prelude::*;

verus! {

/// One header as it is modelled: a name and a value, each a byte sequence.
pub type HeaderPair = (Seq<u8>, Seq<u8>);

/// The value under the first entry named `k`, if any. With unique keys the
/// first entry is the only one.
pub open spec fn assoc_get(entries: Seq<HeaderPair>, k: Seq<u8>) -> Option<Seq<u8>>
    decreases entries.len(),
{
    if entries.len() == 0 {
        None
    } else if entries[0].0 == k {
        Some(entries[0].1)
    } else {
        assoc_get(entries.drop_first(), k)
    }
}

/// `entries` with `v` bound to `k`: the value of the first entry named `k`
/// is replaced in place, or a new entry is appended.
pub open spec fn assoc_insert(entries: Seq<HeaderPair>, k: Seq<u8>, v: Seq<u8>) -> Seq<HeaderPair>
    decreases entries.len(),
{
    if entries.len() == 0 {
        seq![(k, v)]
    } else if entries[0].0 == k {
        seq![(k, v)] + entries.drop_first()
    } else {
        seq![entries[0]] + assoc_insert(entries.drop_first(), k, v)
    }
}

/// No two entries share a name.
pub open spec fn keys_unique(entries: Seq<HeaderPair>) -> bool {
    forall|i: int, j: int| 0 <= i < j < entries.len() ==> (#[trigger] entries[i]).0 != (#[trigger] entries[j]).0
}

/// Inserting a name no entry holds appends the new entry.
pub proof fn lemma_assoc_insert_absent(entries: Seq<HeaderPair>, k: Seq<u8>, v: Seq<u8>)
    requires
        assoc_get(entries, k) == None::<Seq<u8>>,
    ensures
        assoc_insert(entries, k, v) == entries.push((k, v)),
    decreases entries.len(),
{
    if entries.len() == 0 {
        assert(assoc_insert(entries, k, v) =~= entries.push((k, v)));
    } else {
        lemma_assoc_insert_absent(entries.drop_first(), k, v);
        assert(assoc_insert(entries, k, v) =~= entries.push((k, v)));
    }
}

/// Inserting over the first entry named `k` updates it in place.
pub proof fn lemma_assoc_insert_found(entries: Seq<HeaderPair>, k: Seq<u8>, v: Seq<u8>, i: int)
    requires
        0 <= i < entries.len(),
        entries[i].0 == k,
        forall|j: int| 0 <= j < i ==> (#[trigger] entries[j]).0 != k,
    ensures
        assoc_insert(entries, k, v) == entries.update(i, (k, v)),
    decreases i,
{
    if i == 0 {
        assert(assoc_insert(entries, k, v) =~= entries.update(0, (k, v)));
    } else {
        assert(entries[0].0 != k);
        let rest = entries.drop_first();
        assert(forall|j: int| 0 <= j < i - 1 ==> (#[trigger] rest[j]).0 != k);
        lemma_assoc_insert_found(rest, k, v, i - 1);
        assert(assoc_insert(entries, k, v) =~= entries.update(i, (k, v)));
    }
}

/// A header map: name/value entries with unique names.
pub struct Headers {
    entries: Vec<(Vec<u8>, Vec<u8>)>,
}

impl View for Headers {
    type V = Seq<HeaderPair>;

    closed spec fn view(&self) -> Seq<HeaderPair> {
        Seq::new(self.entries@.len(), |i: int| (self.entries@[i].0@, self.entries@[i].1@))
    }
}

impl Headers {
    /// The map's invariant: no name occurs twice.
    pub open spec fn wf(self) -> bool {
        keys_unique(self@)
    }

    /// An empty header map.
    pub fn new() -> (r: Headers)
        ensures
            r@ == Seq::<HeaderPair>::empty(),
            r.wf(),
    {
        let r = Headers { entries: Vec::new() };
        assert(r@ =~= Seq::<HeaderPair>::empty());
        r
    }

    /// How many headers the map holds.
    pub fn len(&self) -> (r: usize)
        ensures
            r == self@.len(),
    {
        self.entries.len()
    }

    /// The entry at position `i`, for walking the map in its stored order.
    pub fn pair_at(&self, i: usize) -> (r: &(Vec<u8>, Vec<u8>))
        requires
            i < self@.len(),
        ensures
            (r.0@, r.1@) == self@[i as int],
    {
        &self.entries[i]
    }

    /// Binds `value` to `name`: replaces the value of an entry already so
    /// named, or appends a new entry.
    pub fn insert(&mut self, name: Vec<u8>, value: Vec<u8>)
        requires
            old(self).wf(),
        ensures
            final(self)@ == assoc_insert(old(self)@, name@, value@),
            final(self).wf(),
    {
        let ghost entries0 = self@;
        let n = self.entries.len();
        let mut i: usize = 0;
        while i < n
            invariant
                0 <= i <= n,
                n == self@.len(),
                self@ == entries0,
                entries0 == old(self)@,
                keys_unique(entries0),
                forall|j: int| 0 <= j < i ==> (#[trigger] entries0[j]).0 != name@,
            decreases n - i,
        {
            if bytes_eq(self.entries[i].0.as_slice(), name.as_slice()) {
                let _ = self.entries.remove(i);
                self.entries.insert(i, (name, value));
                proof {
                    assert(self@ =~= entries0.update(i as int, (name@, value@)));
                    assert(entries0[i as int].0 == name@);
                    lemma_assoc_insert_found(entries0, name@, value@, i as int);
                    assert(self@ == assoc_insert(entries0, name@, value@));
                    assert(forall|j: int|
                        0 <= j < self@.len() ==> (#[trigger] self@[j]).0 == entries0[j].0);
                    assert(keys_unique(self@));
                }
                return;
            }
            i = i + 1;
        }
        self.entries.push((name, value));
        proof {
            assert(self@ =~= entries0.push((name@, value@)));
            assert(assoc_get(entries0, name@) == None::<Seq<u8>>) by {
                lemma_assoc_get_absent(entries0, name@);
            }
            lemma_assoc_insert_absent(entries0, name@, value@);
            assert(keys_unique(self@));
        }
    }

    /// The value stored under `name`, if any.
    pub fn get(&self, name: &[u8]) -> (r: Option<&Vec<u8>>)
        ensures
            match r {
                Some(v) => assoc_get(self@, name@) == Some(v@),
                None => assoc_get(self@, name@) == None::<Seq<u8>>,
            },
    {
        let n = self.entries.len();
        let mut i: usize = 0;
        assert(self@.skip(0) =~= self@);
        while i < n
            invariant
                0 <= i <= n,
                n == self@.len(),
                assoc_get(self@, name@) == assoc_get(self@.skip(i as int), name@),
            decreases n - i,
        {
            proof {
                assert(self@.skip(i as int)[0] == self@[i as int]);
                assert(self@.skip(i as int).drop_first() =~= self@.skip(i as int + 1));
            }
            if bytes_eq(self.entries[i].0.as_slice(), name) {
                return Some(&self.entries[i].1);
            }
            i = i + 1;
        }
        proof {
            assert(self@.skip(n as int).len() == 0);
        }
        None
    }
}

/// A name that no entry matches is absent from the map.
pub proof fn lemma_assoc_get_absent(entries: Seq<HeaderPair>, k: Seq<u8>)
    requires
        forall|j: int| 0 <= j < entries.len() ==> (#[trigger] entries[j]).0 != k,
    ensures
        assoc_get(entries, k) == None::<Seq<u8>>,
    decreases entries.len(),
{
    if entries.len() > 0 {
        lemma_assoc_get_absent(entries.drop_first(), k);
    }
}

use crate::bytes::bytes_eq;

} // verus!
