//! What holds of every changeset that the reconciler computes, stated over
//! the keys of the two lists.

use vstd::prelude::*;
use vstd::seq_lib::{lemma_no_dup_in_concat, seq_to_set_distributes_over_add};
use crate::reconcile::{
    bucket_key, bucket_keys, bucket_source, counts, has_key, in_bucket, key_set, last_position,
    lemma_has_key, lemma_last_position, lemma_positions, positions, Bucket, Keys,
};

verus! {

/// The set of keys that a bucket is meant to hold: for inserts the keys only
/// the desired side has, for updates the keys both sides have, for deletes
/// the keys only the actual side has.
pub open spec fn bucket_key_set(b: Bucket, desired: Keys, actual: Keys) -> Set<Seq<char>> {
    match b {
        Bucket::Insert => key_set(desired).difference(key_set(actual)),
        Bucket::Update => key_set(desired).intersect(key_set(actual)),
        Bucket::Delete => key_set(actual).difference(key_set(desired)),
    }
}

/// The keys of a list form a finite set.
pub proof fn lemma_key_set_finite(keys: Keys)
    ensures
        key_set(keys).finite(),
    decreases keys.len(),
{
    if keys.len() == 0 {
        assert(key_set(keys) =~= Set::<Seq<char>>::empty());
    } else {
        let rest = keys.drop_last();
        lemma_key_set_finite(rest);
        match keys.last() {
            Some(k) => {
                assert(key_set(keys) =~= key_set(rest).insert(k));
            },
            None => {
                assert(key_set(keys) =~= key_set(rest));
            },
        }
    }
}

/// Each bucket holds exactly the keys it is meant to hold, and none of them
/// twice.
pub proof fn lemma_bucket_keys(b: Bucket, desired: Keys, actual: Keys)
    ensures
        bucket_keys(b, desired, actual).to_set() == bucket_key_set(b, desired, actual),
        bucket_keys(b, desired, actual).no_duplicates(),
{
    let keys = bucket_keys(b, desired, actual);
    let pos = positions(b, desired, actual);
    let src = bucket_source(b, desired, actual);
    lemma_positions(b, desired, actual);
    assert forall|k: Seq<char>| keys.to_set().contains(k) <==> bucket_key_set(
        b,
        desired,
        actual,
    ).contains(k) by {
        lemma_has_key(desired, k);
        lemma_has_key(actual, k);
        lemma_last_position(desired, k);
        lemma_last_position(actual, k);
        if keys.to_set().contains(k) {
            let n = choose|n: int| 0 <= n < keys.len() && keys[n] == k;
            assert(in_bucket(b, desired, actual, pos[n]));
            assert(src[pos[n]] == Some(k));
        }
        if bucket_key_set(b, desired, actual).contains(k) {
            let p = last_position(src, k);
            assert(counts(src, p));
            assert(in_bucket(b, desired, actual, p));
            assert(pos.contains(p));
            let n = choose|n: int| 0 <= n < pos.len() && pos[n] == p;
            assert(keys[n] == k);
            assert(keys.contains(k));
        }
    }
    assert(keys.to_set() =~= bucket_key_set(b, desired, actual));
    assert forall|x: int, y: int| 0 <= x < keys.len() && 0 <= y < keys.len() && x != y implies keys[x]
        != keys[y] by {
        assert(in_bucket(b, desired, actual, pos[x]));
        assert(in_bucket(b, desired, actual, pos[y]));
        if x < y {
            assert(pos[x] < pos[y]);
        } else {
            assert(pos[y] < pos[x]);
        }
    }
}

/// The changeset partitions the keys of both sides: every key of either
/// side is in exactly one bucket, a bucket holds no key twice, and the
/// three buckets together have as many records as there are keys.
pub proof fn lemma_diff_partitions(desired: Keys, actual: Keys)
    ensures
        ({
            let i = bucket_keys(Bucket::Insert, desired, actual);
            let u = bucket_keys(Bucket::Update, desired, actual);
            let d = bucket_keys(Bucket::Delete, desired, actual);
            let all = key_set(desired).union(key_set(actual));
            &&& i.to_set().union(u.to_set()).union(d.to_set()) == all
            &&& i.to_set().disjoint(u.to_set())
            &&& i.to_set().disjoint(d.to_set())
            &&& u.to_set().disjoint(d.to_set())
            &&& i.no_duplicates()
            &&& u.no_duplicates()
            &&& d.no_duplicates()
            &&& all.finite()
            &&& i.len() + u.len() + d.len() == all.len()
        }),
{
    let i = bucket_keys(Bucket::Insert, desired, actual);
    let u = bucket_keys(Bucket::Update, desired, actual);
    let d = bucket_keys(Bucket::Delete, desired, actual);
    let all = key_set(desired).union(key_set(actual));
    lemma_bucket_keys(Bucket::Insert, desired, actual);
    lemma_bucket_keys(Bucket::Update, desired, actual);
    lemma_bucket_keys(Bucket::Delete, desired, actual);
    lemma_key_set_finite(desired);
    lemma_key_set_finite(actual);
    assert(i.to_set().union(u.to_set()).union(d.to_set()) =~= all);
    assert forall|x: int, y: int| 0 <= x < i.len() && 0 <= y < u.len() implies i[x] != u[y] by {
        assert(i.to_set().contains(i[x]));
        assert(u.to_set().contains(u[y]));
    }
    lemma_no_dup_in_concat(i, u);
    assert forall|x: int, y: int| 0 <= x < (i + u).len() && 0 <= y < d.len() implies (i + u)[x]
        != d[y] by {
        assert(d.to_set().contains(d[y]));
        if x < i.len() {
            assert(i.to_set().contains(i[x]));
        } else {
            assert(u.to_set().contains(u[x - i.len()]));
        }
    }
    lemma_no_dup_in_concat(i + u, d);
    seq_to_set_distributes_over_add(i, u);
    seq_to_set_distributes_over_add(i + u, d);
    (i + u + d).unique_seq_to_set();
    assert((i + u + d).to_set() =~= all);
}

/// Applying the changeset brings the actual side to the desired one: the
/// actual keys, with the inserted keys added and the deleted keys removed,
/// are the desired keys.
pub proof fn lemma_applied_diff_is_desired(desired: Keys, actual: Keys)
    ensures
        key_set(actual).union(bucket_keys(Bucket::Insert, desired, actual).to_set()).difference(
            bucket_keys(Bucket::Delete, desired, actual).to_set(),
        ) == key_set(desired),
{
    lemma_bucket_keys(Bucket::Insert, desired, actual);
    lemma_bucket_keys(Bucket::Delete, desired, actual);
    assert(key_set(actual).union(bucket_key_set(Bucket::Insert, desired, actual)).difference(
        bucket_key_set(Bucket::Delete, desired, actual),
    ) =~= key_set(desired));
}

/// Where both sides already hold the same keys, nothing is inserted or
/// deleted, and every key is updated.
pub proof fn lemma_diff_of_synced(desired: Keys, actual: Keys)
    requires
        key_set(desired) == key_set(actual),
    ensures
        positions(Bucket::Insert, desired, actual).len() == 0,
        positions(Bucket::Delete, desired, actual).len() == 0,
        bucket_keys(Bucket::Update, desired, actual).to_set() == key_set(desired),
{
    lemma_bucket_keys(Bucket::Insert, desired, actual);
    lemma_bucket_keys(Bucket::Update, desired, actual);
    lemma_bucket_keys(Bucket::Delete, desired, actual);
    let i = bucket_keys(Bucket::Insert, desired, actual);
    let d = bucket_keys(Bucket::Delete, desired, actual);
    if i.len() > 0 {
        assert(i.to_set().contains(i[0]));
    }
    if d.len() > 0 {
        assert(d.to_set().contains(d[0]));
    }
    assert(bucket_key_set(Bucket::Update, desired, actual) =~= key_set(desired));
}

/// A list diffed against itself: nothing to insert or delete, and every
/// record that counts is paired with itself.
pub proof fn lemma_diff_of_self(keys: Keys)
    ensures
        positions(Bucket::Insert, keys, keys).len() == 0,
        positions(Bucket::Delete, keys, keys).len() == 0,
        forall|n: int|
            0 <= n < positions(Bucket::Update, keys, keys).len() ==> last_position(
                keys,
                bucket_key(Bucket::Update, keys, keys, #[trigger] positions(Bucket::Update, keys, keys)[n]),
            ) == positions(Bucket::Update, keys, keys)[n],
        forall|i: int| counts(keys, i) ==> #[trigger] positions(Bucket::Update, keys, keys).contains(i),
{
    lemma_diff_of_synced(keys, keys);
    lemma_positions(Bucket::Update, keys, keys);
    assert forall|i: int| counts(keys, i) implies #[trigger] positions(
        Bucket::Update,
        keys,
        keys,
    ).contains(i) by {
        assert(has_key(keys, keys[i]->0));
        assert(in_bucket(Bucket::Update, keys, keys, i));
    }
}

/// The buckets, as sets of keys, depend on the sets of keys of the two
/// sides alone: not on the order of the records, nor on how often a key
/// occurs. So every run on the same two sets gives the same buckets.
pub proof fn lemma_buckets_depend_on_key_sets(
    b: Bucket,
    desired: Keys,
    actual: Keys,
    desired_again: Keys,
    actual_again: Keys,
)
    requires
        key_set(desired) == key_set(desired_again),
        key_set(actual) == key_set(actual_again),
    ensures
        bucket_keys(b, desired, actual).to_set() == bucket_keys(
            b,
            desired_again,
            actual_again,
        ).to_set(),
        bucket_keys(b, desired, actual).len() == bucket_keys(b, desired_again, actual_again).len(),
{
    lemma_bucket_keys(b, desired, actual);
    lemma_bucket_keys(b, desired_again, actual_again);
    bucket_keys(b, desired, actual).unique_seq_to_set();
    bucket_keys(b, desired_again, actual_again).unique_seq_to_set();
}

} // verus!
