//! A keyed table: at most one entry for each key, found by the digest of the key.

use std::collections::HashMap;
use vstd::prelude::*;

verus! {

broadcast use vstd::std_specs::hash::group_hash_axioms;

/// A key that can be compared with another of its kind and reduced to a digest.
/// Two keys are the same key where their views are equal.
pub trait MatchKey: View + Sized {
    /// The digest of the key with the view `view`.
    spec fn digest_of(view: Self::V) -> u64;

    /// Tells whether `other` is the same key.
    fn matches(&self, other: &Self) -> (same: bool)
        ensures
            same == (self@ == other@),
    ;

    /// Computes the digest of the key.
    fn digest(&self) -> (digest: u64)
        ensures
            digest == Self::digest_of(self@),
    ;
}

/// A table that holds, for every key, at most one value. The entries are kept
/// in buckets, each entry in the bucket of its key's digest.
#[derive(Debug)]
pub struct Table<K: MatchKey, V> {
    buckets: HashMap<u64, Vec<(K, V)>>,
}

/// The keys of `entries` are pairwise different.
pub open spec fn distinct_keys<K: MatchKey, V>(entries: Seq<(K, V)>) -> bool {
    forall|i: int, j: int|
        0 <= i < entries.len() && 0 <= j < entries.len() && i != j ==> entries[i].0@
            != entries[j].0@
}

/// Some entry of `entries` has the key `key`.
pub open spec fn has_key<K: MatchKey, V>(entries: Seq<(K, V)>, key: K::V) -> bool {
    exists|i: int| 0 <= i < entries.len() && #[trigger] entries[i].0@ == key
}

/// The index of an entry of `entries` with the key `key`.
pub open spec fn index_of<K: MatchKey, V>(entries: Seq<(K, V)>, key: K::V) -> int {
    choose|i: int| 0 <= i < entries.len() && #[trigger] entries[i].0@ == key
}

/// The map from keys to values that `entries` stands for.
pub open spec fn entries_map<K: MatchKey, V>(entries: Seq<(K, V)>) -> Map<K::V, V> {
    Map::new(|key: K::V| has_key(entries, key), |key: K::V| entries[index_of(entries, key)].1)
}

/// Every key of `entries` has the digest `digest`.
pub open spec fn bucket_of<K: MatchKey, V>(entries: Seq<(K, V)>, digest: u64) -> bool {
    forall|i: int| 0 <= i < entries.len() ==> K::digest_of(#[trigger] entries[i].0@) == digest
}

/// Every bucket holds entries with distinct keys, whose digest is that of the bucket.
pub open spec fn buckets_in_order<K: MatchKey, V>(buckets: Map<u64, Vec<(K, V)>>) -> bool {
    forall|digest: u64| #[trigger]
        buckets.contains_key(digest) ==> distinct_keys(buckets[digest]@) && bucket_of(
            buckets[digest]@,
            digest,
        )
}

/// The bucket for `digest`, empty where there is none.
pub open spec fn bucket_at<K: MatchKey, V>(buckets: Map<u64, Vec<(K, V)>>, digest: u64) -> Seq<
    (K, V),
> {
    if buckets.contains_key(digest) {
        buckets[digest]@
    } else {
        Seq::empty()
    }
}

/// The map from keys to values that `buckets` stand for.
pub open spec fn buckets_map<K: MatchKey, V>(buckets: Map<u64, Vec<(K, V)>>) -> Map<K::V, V> {
    Map::new(
        |key: K::V| has_key(bucket_at(buckets, K::digest_of(key)), key),
        |key: K::V| entries_map(bucket_at(buckets, K::digest_of(key)))[key],
    )
}

impl<K: MatchKey, V> View for Table<K, V> {
    type V = Map<K::V, V>;

    closed spec fn view(&self) -> Map<K::V, V> {
        buckets_map(self.buckets@)
    }
}

/// The index in `entries` of the entry for `key`, if there is one.
fn position<K: MatchKey, V>(entries: &Vec<(K, V)>, key: &K) -> (found: Option<usize>)
    ensures
        match found {
            Some(i) => i < entries@.len() && entries@[i as int].0@ == key@,
            None => !has_key(entries@, key@),
        },
{
    let mut i: usize = 0;
    while i < entries.len()
        invariant
            i <= entries@.len(),
            forall|k: int| 0 <= k < i ==> entries@[k].0@ != key@,
        decreases entries@.len() - i,
    {
        if entries[i].0.matches(key) {
            return Some(i);
        }
        i = i + 1;
    }
    None
}

impl<K: MatchKey, V> Table<K, V> {
    #[verifier::type_invariant]
    spec fn well_formed(&self) -> bool {
        buckets_in_order(self.buckets@)
    }

    /// An empty table.
    pub fn new() -> (table: Self)
        ensures
            table@ == Map::<K::V, V>::empty(),
    {
        let table = Table { buckets: HashMap::new() };
        assert(table@ =~= Map::<K::V, V>::empty());
        table
    }

    /// Tells whether the table holds an entry for `key`.
    pub fn contains_key(&self, key: &K) -> (found: bool)
        ensures
            found == self@.contains_key(key@),
    {
        self.get(key).is_some()
    }

    /// The value held for `key`, if there is one.
    pub fn get(&self, key: &K) -> (found: Option<&V>)
        ensures
            match found {
                Some(value) => self@.contains_key(key@) && *value == self@[key@],
                None => !self@.contains_key(key@),
            },
    {
        proof {
            use_type_invariant(self);
        }
        let digest = key.digest();
        match self.buckets.get(&digest) {
            None => None,
            Some(bucket) => match position(bucket, key) {
                Some(i) => {
                    proof {
                        lemma_entry_at(bucket@, i as int);
                    }
                    Some(&bucket[i].1)
                },
                None => None,
            },
        }
    }

    /// Stores `value` for `key` and returns the value that it replaces, if any.
    pub fn insert(&mut self, key: K, value: V) -> (replaced: Option<V>)
        ensures
            final(self)@ == old(self)@.insert(key@, value),
            match replaced {
                Some(previous) => old(self)@.contains_key(key@) && previous == old(self)@[key@],
                None => !old(self)@.contains_key(key@),
            },
    {
        proof {
            use_type_invariant(&*self);
        }
        let ghost before = self.buckets@;
        let digest = key.digest();
        let mut buckets: HashMap<u64, Vec<(K, V)>> = HashMap::new();
        core::mem::swap(&mut buckets, &mut self.buckets);
        let mut bucket: Vec<(K, V)> = match buckets.remove(&digest) {
            Some(bucket) => bucket,
            None => Vec::new(),
        };
        let ghost held = bucket@;
        assert(held == bucket_at(before, digest));
        assert(distinct_keys(held) && bucket_of(held, digest)) by {
            if before.contains_key(digest) {
            }
        }
        let ghost emptied = buckets@;
        let replaced = match position(&bucket, &key) {
            Some(i) => {
                proof {
                    lemma_entry_at(held, i as int);
                    lemma_swap_remove(held, i as int, digest);
                }
                let (_, previous) = bucket.swap_remove(i);
                Some(previous)
            },
            None => None,
        };
        proof {
            lemma_push(bucket@, key, value, digest);
        }
        bucket.push((key, value));
        assert(entries_map(bucket@) =~= entries_map(held).insert(key@, value));
        proof {
            lemma_bucket_replaced(before, digest, bucket);
            assert(emptied.insert(digest, bucket) =~= before.insert(digest, bucket));
            assert(buckets_map(before.insert(digest, bucket)) =~= buckets_map(before).insert(
                key@,
                value,
            ));
        }
        buckets.insert(digest, bucket);
        self.buckets = buckets;
        replaced
    }

    /// Takes the entry for `key` out of the table and returns its value, if there is one.
    pub fn remove(&mut self, key: &K) -> (removed: Option<V>)
        ensures
            final(self)@ == old(self)@.remove(key@),
            match removed {
                Some(value) => old(self)@.contains_key(key@) && value == old(self)@[key@],
                None => !old(self)@.contains_key(key@),
            },
    {
        proof {
            use_type_invariant(&*self);
        }
        let ghost before = self.buckets@;
        let digest = key.digest();
        let mut buckets: HashMap<u64, Vec<(K, V)>> = HashMap::new();
        core::mem::swap(&mut buckets, &mut self.buckets);
        let removed = match buckets.remove(&digest) {
            None => {
                assert(buckets@ =~= before);
                assert(buckets_map(before) =~= buckets_map(before).remove(key@));
                None
            },
            Some(mut bucket) => {
                let ghost held = bucket@;
                let ghost emptied = buckets@;
                let removed = match position(&bucket, key) {
                    Some(i) => {
                        proof {
                            lemma_entry_at(held, i as int);
                            lemma_swap_remove(held, i as int, digest);
                        }
                        let (_, value) = bucket.swap_remove(i);
                        Some(value)
                    },
                    None => {
                        assert(entries_map(held) =~= entries_map(held).remove(key@));
                        None
                    },
                };
                proof {
                    lemma_bucket_replaced(before, digest, bucket);
                    assert(emptied.insert(digest, bucket) =~= before.insert(digest, bucket));
                    assert(buckets_map(before.insert(digest, bucket)) =~= buckets_map(
                        before,
                    ).remove(key@));
                }
                buckets.insert(digest, bucket);
                removed
            },
        };
        self.buckets = buckets;
        removed
    }
}

/// In a run with distinct keys, the entry at `i` is the one that the map holds for its key.
proof fn lemma_entry_at<K: MatchKey, V>(entries: Seq<(K, V)>, i: int)
    requires
        distinct_keys(entries),
        0 <= i < entries.len(),
    ensures
        has_key(entries, entries[i].0@),
        index_of(entries, entries[i].0@) == i,
        entries_map(entries).contains_key(entries[i].0@),
        entries_map(entries)[entries[i].0@] == entries[i].1,
{
    assert(entries[i].0@ == entries[i].0@);
}

/// Adding an entry with a new key, of the bucket's digest, adds it to the map.
proof fn lemma_push<K: MatchKey, V>(entries: Seq<(K, V)>, key: K, value: V, digest: u64)
    requires
        distinct_keys(entries),
        bucket_of(entries, digest),
        K::digest_of(key@) == digest,
        !has_key(entries, key@),
    ensures
        distinct_keys(entries.push((key, value))),
        bucket_of(entries.push((key, value)), digest),
        entries_map(entries.push((key, value))) == entries_map(entries).insert(key@, value),
{
    let after = entries.push((key, value));
    assert forall|i: int, j: int|
        0 <= i < after.len() && 0 <= j < after.len() && i != j implies after[i].0@
        != after[j].0@ by {
        if i < entries.len() {
            assert(entries[i].0@ == after[i].0@);
        }
        if j < entries.len() {
            assert(entries[j].0@ == after[j].0@);
        }
    }
    assert forall|i: int| 0 <= i < after.len() implies K::digest_of(#[trigger] after[i].0@)
        == digest by {
        if i < entries.len() {
            assert(entries[i].0@ == after[i].0@);
        }
    }
    assert forall|k: K::V| has_key(after, k) <==> (k == key@ || has_key(entries, k)) by {
        if has_key(after, k) {
            let i = index_of(after, k);
            if i < entries.len() {
                assert(entries[i].0@ == k);
            }
        }
        if has_key(entries, k) {
            let i = index_of(entries, k);
            assert(after[i].0@ == k);
        }
        if k == key@ {
            assert(after[entries.len() as int].0@ == k);
        }
    }
    assert forall|k: K::V| has_key(after, k) implies entries_map(after)[k] == entries_map(
        entries,
    ).insert(key@, value)[k] by {
        let i = index_of(after, k);
        lemma_entry_at(after, i);
        if i < entries.len() {
            assert(entries[i].0@ == k);
            lemma_entry_at(entries, i);
        }
    }
    assert(entries_map(after) =~= entries_map(entries).insert(key@, value));
}

/// What `Vec::swap_remove` leaves of a bucket.
proof fn lemma_swap_remove<K: MatchKey, V>(entries: Seq<(K, V)>, i: int, digest: u64)
    requires
        distinct_keys(entries),
        bucket_of(entries, digest),
        0 <= i < entries.len(),
    ensures
        distinct_keys(entries.update(i, entries.last()).drop_last()),
        bucket_of(entries.update(i, entries.last()).drop_last(), digest),
        !has_key(entries.update(i, entries.last()).drop_last(), entries[i].0@),
        entries_map(entries.update(i, entries.last()).drop_last()) == entries_map(entries).remove(
            entries[i].0@,
        ),
{
    let after = entries.update(i, entries.last()).drop_last();
    let last = entries.len() - 1;
    // every entry of `after` is an entry of `entries` at the index `origin`
    let origin = |j: int| if j == i { last } else { j };
    assert forall|a: int, b: int|
        0 <= a < after.len() && 0 <= b < after.len() && a != b implies after[a].0@
        != after[b].0@ by {
        assert(after[a] == entries[origin(a)]);
        assert(after[b] == entries[origin(b)]);
    }
    assert forall|a: int| 0 <= a < after.len() implies K::digest_of(#[trigger] after[a].0@)
        == digest by {
        assert(after[a] == entries[origin(a)]);
    }
    assert forall|k: K::V| has_key(after, k) <==> (k != entries[i].0@ && has_key(entries, k)) by {
        if has_key(after, k) {
            let a = index_of(after, k);
            assert(after[a] == entries[origin(a)]);
            assert(entries[origin(a)].0@ == k);
        }
        if k != entries[i].0@ && has_key(entries, k) {
            let e = index_of(entries, k);
            if e == last {
                assert(after[i].0@ == k);
            } else {
                assert(after[e].0@ == k);
            }
        }
    }
    assert forall|k: K::V| has_key(after, k) implies entries_map(after)[k] == entries_map(
        entries,
    ).remove(entries[i].0@)[k] by {
        let a = index_of(after, k);
        lemma_entry_at(after, a);
        assert(after[a] == entries[origin(a)]);
        lemma_entry_at(entries, origin(a));
    }
    assert(entries_map(after) =~= entries_map(entries).remove(entries[i].0@));
}

/// Putting a bucket in the place of the bucket for its digest changes the map
/// for the keys of that digest only, to what the new bucket holds.
proof fn lemma_bucket_replaced<K: MatchKey, V>(
    buckets: Map<u64, Vec<(K, V)>>,
    digest: u64,
    bucket: Vec<(K, V)>,
)
    requires
        buckets_in_order(buckets),
        distinct_keys(bucket@),
        bucket_of(bucket@, digest),
    ensures
        buckets_in_order(buckets.insert(digest, bucket)),
        forall|key: K::V| #[trigger]
            buckets_map(buckets.insert(digest, bucket)).contains_key(key) <==> (if K::digest_of(
                key,
            ) == digest {
                entries_map(bucket@).contains_key(key)
            } else {
                buckets_map(buckets).contains_key(key)
            }),
        forall|key: K::V| #[trigger]
            buckets_map(buckets.insert(digest, bucket)).contains_key(key) ==> buckets_map(
                buckets.insert(digest, bucket),
            )[key] == (if K::digest_of(key) == digest {
                entries_map(bucket@)[key]
            } else {
                buckets_map(buckets)[key]
            }),
        forall|key: K::V|
            K::digest_of(key) == digest ==> (#[trigger] buckets_map(buckets).contains_key(key)
                <==> entries_map(bucket_at(buckets, digest)).contains_key(key)),
        forall|key: K::V|
            K::digest_of(key) == digest && #[trigger] buckets_map(buckets).contains_key(key)
                ==> buckets_map(buckets)[key] == entries_map(bucket_at(buckets, digest))[key],
        forall|key: K::V|
            K::digest_of(key) != digest ==> !(#[trigger] entries_map(bucket@).contains_key(key)),
        forall|key: K::V|
            K::digest_of(key) != digest ==> !(#[trigger] entries_map(
                bucket_at(buckets, digest),
            ).contains_key(key)),
{
    let after = buckets.insert(digest, bucket);
    assert forall|d: u64| #[trigger] after.contains_key(d) implies distinct_keys(after[d]@)
        && bucket_of(after[d]@, d) by {
        if d != digest {
            assert(buckets.contains_key(d));
        }
    }
    assert forall|key: K::V| K::digest_of(key) != digest implies !(#[trigger] entries_map(
        bucket@,
    ).contains_key(key)) && !entries_map(bucket_at(buckets, digest)).contains_key(key) by {
        if has_key(bucket@, key) {
            let i = index_of(bucket@, key);
            assert(K::digest_of(bucket@[i].0@) == digest);
        }
        if has_key(bucket_at(buckets, digest), key) {
            let i = index_of(bucket_at(buckets, digest), key);
            assert(buckets.contains_key(digest));
            assert(K::digest_of(buckets[digest]@[i].0@) == digest);
        }
    }
    assert forall|key: K::V| true implies #[trigger] bucket_at(after, K::digest_of(key)) == (if K::digest_of(
        key,
    ) == digest {
        bucket@
    } else {
        bucket_at(buckets, K::digest_of(key))
    }) by {}
    assert forall|key: K::V| #[trigger]
        buckets_map(after).contains_key(key) <==> (if K::digest_of(key) == digest {
            entries_map(bucket@).contains_key(key)
        } else {
            buckets_map(buckets).contains_key(key)
        }) by {
        assert(bucket_at(after, K::digest_of(key)) == (if K::digest_of(key) == digest {
            bucket@
        } else {
            bucket_at(buckets, K::digest_of(key))
        }));
    }
    assert forall|key: K::V| #[trigger] buckets_map(after).contains_key(key) implies buckets_map(
        after,
    )[key] == (if K::digest_of(key) == digest {
        entries_map(bucket@)[key]
    } else {
        buckets_map(buckets)[key]
    }) by {
        assert(bucket_at(after, K::digest_of(key)) == (if K::digest_of(key) == digest {
            bucket@
        } else {
            bucket_at(buckets, K::digest_of(key))
        }));
    }
}

} // verus!
