//! A map from type keys to values, with a fixed number of buckets, each an
//! append-only list of entries.
use crate::list::{List, ListIterator};
use crate::TypeKey;
use vstd::prelude::*;

verus! {

/// The number of buckets.
pub const BUCKETS: usize = 256;

/// The bucket that holds the entries of `key`: the key modulo one less than
/// the bucket count, so the last bucket is never used.
pub open spec fn bucket_of(key: TypeKey) -> int {
    (key % 255) as int
}

/// The values of the entries of `s` whose key is `key`, in order.
pub open spec fn values_for<V>(s: Seq<(TypeKey, V)>, key: TypeKey) -> Seq<V>
    decreases s.len(),
{
    if s.len() == 0 {
        Seq::empty()
    } else {
        let prev = values_for(s.drop_last(), key);
        if s.last().0 == key {
            prev.push(s.last().1)
        } else {
            prev
        }
    }
}

/// Adding an entry at the end adds its value to the values of its key and
/// leaves those of every other key as they were.
pub proof fn lemma_values_for_push<V>(s: Seq<(TypeKey, V)>, e: (TypeKey, V), key: TypeKey)
    ensures
        values_for(s.push(e), key) == (if e.0 == key {
            values_for(s, key).push(e.1)
        } else {
            values_for(s, key)
        }),
{
    assert(s.push(e).drop_last() =~= s);
}

/// The concatenation of the buckets from `i` on.
pub open spec fn entries_from<E>(b: Seq<Seq<E>>, i: int) -> Seq<E>
    decreases b.len() - i,
{
    if i < 0 || i >= b.len() {
        Seq::empty()
    } else {
        b[i] + entries_from(b, i + 1)
    }
}

/// A map from type keys to values. It tolerates several entries with one key;
/// a lookup sees the first.
pub struct HashMap<V> {
    map: Vec<List<(TypeKey, V)>>,
}

impl<V> HashMap<V> {
    /// The entries of each bucket, in insertion order.
    pub closed spec fn buckets(&self) -> Seq<Seq<(TypeKey, V)>> {
        self.map@.map_values(|l: List<(TypeKey, V)>| l@)
    }

    /// The map has its full set of buckets.
    pub open spec fn wf(&self) -> bool {
        self.buckets().len() == BUCKETS
    }

    /// The values stored under `key`, in insertion order.
    pub open spec fn items_of(&self, key: TypeKey) -> Seq<V> {
        values_for(self.buckets()[bucket_of(key)], key)
    }

    /// Every entry, bucket by bucket and in insertion order within a bucket.
    pub open spec fn entries(&self) -> Seq<(TypeKey, V)> {
        entries_from(self.buckets(), 0)
    }

    /// An empty map.
    pub fn new() -> (r: Self)
        ensures
            r.wf(),
            forall|i: int| 0 <= i < BUCKETS ==> (#[trigger] r.buckets()[i]).len() == 0,
    {
        let mut map: Vec<List<(TypeKey, V)>> = Vec::new();
        let mut i: usize = 0;
        while i < BUCKETS
            invariant
                i <= BUCKETS,
                map@.len() == i,
                forall|j: int| 0 <= j < i ==> (#[trigger] map@[j])@.len() == 0,
            decreases BUCKETS - i,
        {
            map.push(List::new());
            i = i + 1;
        }
        HashMap { map }
    }

    /// Adds the entry `(key, val)` after the other entries of its bucket.
    pub fn insert(&mut self, key: TypeKey, val: V)
        requires
            old(self).wf(),
        ensures
            final(self).wf(),
            final(self).buckets() == old(self).buckets().update(
                bucket_of(key),
                old(self).buckets()[bucket_of(key)].push((key, val)),
            ),
            forall|k: TypeKey|
                #[trigger] final(self).items_of(k) == (if k == key {
                    old(self).items_of(k).push(val)
                } else {
                    old(self).items_of(k)
                }),
    {
        let k = (key % 255) as usize;
        self.map[k].append((key, val));
        assert(self.buckets() =~= old(self).buckets().update(
            bucket_of(key),
            old(self).buckets()[bucket_of(key)].push((key, val)),
        ));
        assert forall|k: TypeKey|
            #[trigger] self.items_of(k) == (if k == key {
                old(self).items_of(k).push(val)
            } else {
                old(self).items_of(k)
            }) by {
            if bucket_of(k) == bucket_of(key) {
                lemma_values_for_push(old(self).buckets()[bucket_of(key)], (key, val), k);
            }
        }
    }

    /// The values stored under `key`, in insertion order.
    pub fn items(&self, key: TypeKey) -> (r: Vec<&V>)
        requires
            self.wf(),
        ensures
            r@.len() == self.items_of(key).len(),
            forall|i: int| 0 <= i < r@.len() ==> *r@[i] == self.items_of(key)[i],
    {
        let k = (key % 255) as usize;
        let ghost bucket = self.buckets()[k as int];
        let mut it = self.map[k].iter();
        let mut r: Vec<&V> = Vec::new();
        let ghost mut n: int = 0;
        loop
            invariant
                0 <= bucket_of(key) < self.buckets().len(),
                bucket == self.buckets()[bucket_of(key)],
                0 <= n <= bucket.len(),
                it@ == bucket.subrange(n, bucket.len() as int),
                r@.len() == values_for(bucket.subrange(0, n), key).len(),
                forall|i: int|
                    0 <= i < r@.len() ==> *r@[i] == values_for(bucket.subrange(0, n), key)[i],
            decreases bucket.len() - n,
        {
            let ghost prefix = bucket.subrange(0, n);
            match it.next() {
                None => {
                    assert(bucket.subrange(0, n) =~= bucket);
                    return r;
                },
                Some(entry) => {
                    let ghost next_prefix = bucket.subrange(0, n + 1);
                    assert(next_prefix.drop_last() =~= prefix);
                    assert(next_prefix.last() == *entry);
                    if entry.0 == key {
                        r.push(&entry.1);
                    }
                    proof {
                        n = n + 1;
                    }
                    assert(it@ =~= bucket.subrange(n, bucket.len() as int));
                },
            }
        }
    }

    /// The first value stored under `key`, if any.
    pub fn get(&self, k: TypeKey) -> (r: Option<&V>)
        requires
            self.wf(),
        ensures
            self.items_of(k).len() == 0 ==> r is None,
            self.items_of(k).len() > 0 ==> r == Some(&self.items_of(k)[0]),
    {
        let all = self.items(k);
        if all.len() == 0 {
            None
        } else {
            Some(all[0])
        }
    }

    /// A cursor over every entry, bucket by bucket.
    pub fn iter(&self) -> (r: HashMapIter<'_, V>)
        requires
            self.wf(),
        ensures
            r.wf(),
            r@ == self.entries(),
    {
        HashMapIter { map: &self.map, list_iter: None, index: 0 }
    }
}

/// A cursor over the entries of a map, bucket by bucket.
pub struct HashMapIter<'a, V> {
    map: &'a Vec<List<(TypeKey, V)>>,
    list_iter: Option<ListIterator<'a, (TypeKey, V)>>,
    index: usize,
}

impl<'a, V> HashMapIter<'a, V> {
    spec fn buckets(&self) -> Seq<Seq<(TypeKey, V)>> {
        self.map@.map_values(|l: List<(TypeKey, V)>| l@)
    }

    /// The cursor's position lies within the map.
    pub closed spec fn wf(&self) -> bool {
        &&& self.map@.len() == BUCKETS
        &&& self.index <= BUCKETS
    }
}

impl<'a, V> View for HashMapIter<'a, V> {
    type V = Seq<(TypeKey, V)>;

    /// The entries not handed out yet.
    closed spec fn view(&self) -> Seq<(TypeKey, V)> {
        let current = match self.list_iter {
            Some(li) => li@,
            None => Seq::empty(),
        };
        current + entries_from(self.buckets(), self.index as int)
    }
}

impl<'a, V> HashMapIter<'a, V> {
    /// The next entry, or `None` once all have been handed out.
    pub fn next(&mut self) -> (r: Option<&'a (TypeKey, V)>)
        requires
            old(self).wf(),
        ensures
            final(self).wf(),
            old(self)@.len() == 0 ==> r is None && final(self)@ == old(self)@,
            old(self)@.len() > 0 ==> r == Some(&old(self)@[0]) && final(self)@
                == old(self)@.drop_first(),
    {
        loop
            invariant
                self.wf(),
                self@ == old(self)@,
                self.map == old(self).map,
            decreases BUCKETS - self.index, (match self.list_iter {
                Some(li) => 1int,
                None => 0int,
            }),
        {
            let ghost before = self@;
            match self.list_iter.take() {
                Some(li) => {
                    let mut li = li;
                    let ghost rest = li@;
                    match li.next() {
                        Some(x) => {
                            self.list_iter = Some(li);
                            assert(self@ =~= before.drop_first());
                            return Some(x);
                        },
                        None => {
                            assert(self@ =~= before);
                        },
                    }
                },
                None => {},
            }
            if self.index >= BUCKETS {
                assert(self@ =~= before);
                return None;
            }
            self.list_iter = Some(self.map[self.index].iter());
            self.index = self.index + 1;
            assert(self@ =~= before);
        }
    }
}

} // verus!
