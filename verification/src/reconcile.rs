//! The reconciler: a key-based three-way split of a desired and an actual
//! list of records into what to insert, what to update and what to delete.
//!
//! Records are compared by their identity key alone. A record without a
//! usable key takes no part. Where a list holds a key more than once, the
//! last record with that key is the one that counts.

use vstd::prelude::*;
use crate::queue::Queue;
use crate::text::opt_view;

verus! {

/// The keys of a list of records, in list order.
pub type Keys = Seq<Option<Seq<char>>>;

/// The views of a list of optional keys.
pub open spec fn key_views(keys: Seq<Option<String>>) -> Keys {
    Seq::new(keys.len(), |i: int| opt_view(keys[i]))
}

/// The last position at which `k` stands in `keys`, or -1 where it stands
/// nowhere.
pub open spec fn last_position(keys: Keys, k: Seq<char>) -> int
    decreases keys.len(),
{
    if keys.len() == 0 {
        -1
    } else if keys.last() == Some(k) {
        keys.len() - 1
    } else {
        last_position(keys.drop_last(), k)
    }
}

/// Some record of the list has key `k`.
pub open spec fn has_key(keys: Keys, k: Seq<char>) -> bool {
    last_position(keys, k) >= 0
}

/// The record at `i` counts: it has a key and is the last record with it.
pub open spec fn counts(keys: Keys, i: int) -> bool {
    &&& 0 <= i < keys.len()
    &&& keys[i] is Some
    &&& last_position(keys, keys[i]->0) == i
}

/// The set of keys that occur in the list.
pub open spec fn key_set(keys: Keys) -> Set<Seq<char>> {
    Set::new(|k: Seq<char>| has_key(keys, k))
}

/// One of the three parts of a changeset.
#[derive(Clone, Copy, Debug, PartialEq, Eq)]
pub enum Bucket {
    Insert,
    Update,
    Delete,
}

/// The list whose positions a bucket speaks of: the desired list for
/// inserts and updates, the actual list for deletes.
pub open spec fn bucket_source(b: Bucket, desired: Keys, actual: Keys) -> Keys {
    match b {
        Bucket::Insert => desired,
        Bucket::Update => desired,
        Bucket::Delete => actual,
    }
}

/// Position `i` of the bucket's source list belongs to the bucket:
/// - insert: the desired record counts and the actual side lacks its key;
/// - update: the desired record counts and the actual side has its key;
/// - delete: the actual record counts and the desired side lacks its key.
pub open spec fn in_bucket(b: Bucket, desired: Keys, actual: Keys, i: int) -> bool {
    match b {
        Bucket::Insert => counts(desired, i) && !has_key(actual, desired[i]->0),
        Bucket::Update => counts(desired, i) && has_key(actual, desired[i]->0),
        Bucket::Delete => counts(actual, i) && !has_key(desired, actual[i]->0),
    }
}

/// The positions below `n` that belong to the bucket, in rising order.
pub open spec fn positions_below(b: Bucket, desired: Keys, actual: Keys, n: int) -> Seq<int>
    decreases n,
{
    if n <= 0 {
        Seq::empty()
    } else if in_bucket(b, desired, actual, n - 1) {
        positions_below(b, desired, actual, n - 1).push(n - 1)
    } else {
        positions_below(b, desired, actual, n - 1)
    }
}

/// All positions of the bucket, in rising order.
pub open spec fn positions(b: Bucket, desired: Keys, actual: Keys) -> Seq<int> {
    positions_below(b, desired, actual, bucket_source(b, desired, actual).len() as int)
}

/// The key of the record at position `i` of the bucket's source list.
pub open spec fn bucket_key(b: Bucket, desired: Keys, actual: Keys, i: int) -> Seq<char> {
    bucket_source(b, desired, actual)[i]->0
}

/// The keys of a bucket's records, in the bucket's order.
pub open spec fn bucket_keys(b: Bucket, desired: Keys, actual: Keys) -> Seq<Seq<char>> {
    Seq::new(
        positions(b, desired, actual).len(),
        |n: int| bucket_key(b, desired, actual, positions(b, desired, actual)[n]),
    )
}

/// Positions as mathematical integers.
pub open spec fn ints(s: Seq<usize>) -> Seq<int> {
    Seq::new(s.len(), |i: int| s[i] as int)
}

/// What `last_position` finds: the key stands there and nowhere later; -1
/// means that it stands nowhere.
pub proof fn lemma_last_position(keys: Keys, k: Seq<char>)
    ensures
        -1 <= last_position(keys, k) < keys.len(),
        last_position(keys, k) >= 0 ==> keys[last_position(keys, k)] == Some(k),
        forall|j: int| last_position(keys, k) < j < keys.len() ==> keys[j] != Some(k),
    decreases keys.len(),
{
    if keys.len() == 0 {
    } else if keys.last() == Some(k) {
    } else {
        lemma_last_position(keys.drop_last(), k);
        let p = last_position(keys.drop_last(), k);
        assert forall|j: int| p < j < keys.len() implies keys[j] != Some(k) by {
            if j < keys.len() - 1 {
                assert(keys.drop_last()[j] == keys[j]);
            }
        }
        if p >= 0 {
            assert(keys.drop_last()[p] == keys[p]);
        }
    }
}

/// A position that holds the key, with no later one that does, is the last
/// position of the key; where no position holds it, that is -1.
pub proof fn lemma_last_position_is(keys: Keys, k: Seq<char>, p: int)
    requires
        -1 <= p < keys.len(),
        p >= 0 ==> keys[p] == Some(k),
        forall|j: int| p < j < keys.len() ==> keys[j] != Some(k),
    ensures
        last_position(keys, k) == p,
{
    lemma_last_position(keys, k);
}

/// A key is in the key set exactly if some position holds it.
pub proof fn lemma_has_key(keys: Keys, k: Seq<char>)
    ensures
        has_key(keys, k) <==> exists|j: int| 0 <= j < keys.len() && keys[j] == Some(k),
        has_key(keys, k) <==> counts(keys, last_position(keys, k)),
{
    lemma_last_position(keys, k);
    if has_key(keys, k) {
        let p = last_position(keys, k);
        assert(0 <= p < keys.len() && keys[p] == Some(k));
    }
}

/// A position is among those below `n` exactly if it is below `n` and in
/// the bucket; the positions rise strictly.
pub proof fn lemma_positions_below(b: Bucket, desired: Keys, actual: Keys, n: int)
    ensures
        forall|i: int|
            #[trigger] positions_below(b, desired, actual, n).contains(i) <==> (0 <= i < n
                && in_bucket(b, desired, actual, i)),
        forall|x: int, y: int|
            0 <= x < y < positions_below(b, desired, actual, n).len() ==> positions_below(
                b,
                desired,
                actual,
                n,
            )[x] < positions_below(b, desired, actual, n)[y],
        positions_below(b, desired, actual, n).len() <= if n <= 0 {
            0
        } else {
            n
        },
    decreases n,
{
    let s = positions_below(b, desired, actual, n);
    if n <= 0 {
    } else {
        lemma_positions_below(b, desired, actual, n - 1);
        let r = positions_below(b, desired, actual, n - 1);
        if in_bucket(b, desired, actual, n - 1) {
            assert(s == r.push(n - 1));
            assert forall|i: int| #[trigger] s.contains(i) <==> (0 <= i < n && in_bucket(
                b,
                desired,
                actual,
                i,
            )) by {
                assert(r.contains(i) <==> (0 <= i < n - 1 && in_bucket(b, desired, actual, i)));
                if s.contains(i) {
                    let x = choose|x: int| 0 <= x < s.len() && s[x] == i;
                    if x < r.len() {
                        assert(r[x] == i);
                        assert(r.contains(i));
                    } else {
                        assert(i == n - 1);
                    }
                }
                if 0 <= i < n && in_bucket(b, desired, actual, i) {
                    if i == n - 1 {
                        assert(s[r.len() as int] == i);
                        assert(s.contains(i));
                    } else {
                        assert(r.contains(i));
                        let x = choose|x: int| 0 <= x < r.len() && r[x] == i;
                        assert(s[x] == i);
                        assert(s.contains(i));
                    }
                }
            }
            assert forall|x: int, y: int| 0 <= x < y < s.len() implies s[x] < s[y] by {
                if y == r.len() {
                    assert(r[x] == s[x]);
                    assert(r.contains(r[x]));
                    assert(r.contains(r[x]) <==> (0 <= r[x] < n - 1 && in_bucket(
                        b,
                        desired,
                        actual,
                        r[x],
                    )));
                } else {
                    assert(r[x] == s[x] && r[y] == s[y]);
                }
            }
        } else {
            assert(s == r);
        }
    }
}

/// The positions of a bucket: each is in the bucket, every position in the
/// bucket is among them, and they rise strictly.
pub proof fn lemma_positions(b: Bucket, desired: Keys, actual: Keys)
    ensures
        forall|i: int|
            #[trigger] positions(b, desired, actual).contains(i) <==> in_bucket(
                b,
                desired,
                actual,
                i,
            ),
        forall|x: int, y: int|
            0 <= x < y < positions(b, desired, actual).len() ==> positions(b, desired, actual)[x]
                < positions(b, desired, actual)[y],
        forall|x: int|
            0 <= x < positions(b, desired, actual).len() ==> in_bucket(
                b,
                desired,
                actual,
                #[trigger] positions(b, desired, actual)[x],
            ),
{
    let n = bucket_source(b, desired, actual).len() as int;
    lemma_positions_below(b, desired, actual, n);
    let s = positions(b, desired, actual);
    assert forall|x: int| 0 <= x < s.len() implies in_bucket(b, desired, actual, #[trigger] s[x]) by {
        assert(s.contains(s[x]));
    }
}

/// The diff of two key lists, by position: the positions of the desired
/// list to insert, the pairs of a desired and an actual position to update,
/// and the positions of the actual list to delete.
#[derive(Debug, PartialEq, Eq)]
pub struct KeyDiff {
    pub inserts: Vec<usize>,
    pub updates: Vec<(usize, usize)>,
    pub deletes: Vec<usize>,
}

impl KeyDiff {
    /// This is the diff of the two key lists: each bucket holds its
    /// positions in rising order, and an update pairs a desired position
    /// with the position of the actual record that counts for the same key.
    pub open spec fn is_diff_of(&self, desired: Keys, actual: Keys) -> bool {
        &&& ints(self.inserts@) == positions(Bucket::Insert, desired, actual)
        &&& self.updates@.len() == positions(Bucket::Update, desired, actual).len()
        &&& forall|n: int|
            0 <= n < self.updates@.len() ==> {
                &&& (#[trigger] self.updates@[n]).0 == positions(Bucket::Update, desired, actual)[n]
                &&& self.updates@[n].1 == last_position(
                    actual,
                    desired[positions(Bucket::Update, desired, actual)[n]]->0,
                )
            }
        &&& ints(self.deletes@) == positions(Bucket::Delete, desired, actual)
    }
}

/// The last position of `k` in `keys`, if it occurs.
pub fn find_last(keys: &Vec<Option<String>>, k: &String) -> (r: Option<usize>)
    ensures
        match r {
            Some(j) => last_position(key_views(keys@), k@) == j,
            None => last_position(key_views(keys@), k@) == -1,
        },
{
    let ghost views = key_views(keys@);
    let mut i: usize = keys.len();
    while i > 0
        invariant
            i <= keys.len(),
            views == key_views(keys@),
            forall|j: int| i <= j < keys.len() ==> views[j] != Some(k@),
        decreases i,
    {
        i = i - 1;
        match &keys[i] {
            Some(s) => {
                if *s == *k {
                    proof {
                        lemma_last_position_is(views, k@, i as int);
                    }
                    return Some(i);
                }
            },
            None => {},
        }
    }
    proof {
        lemma_last_position_is(views, k@, -1);
    }
    None
}

/// Splits the positions of two key lists into inserts, updates and deletes.
pub fn diff_keys(desired: &Vec<Option<String>>, actual: &Vec<Option<String>>) -> (r: KeyDiff)
    ensures
        r.is_diff_of(key_views(desired@), key_views(actual@)),
{
    let ghost dk = key_views(desired@);
    let ghost ak = key_views(actual@);
    let mut inserts: Vec<usize> = Vec::new();
    let mut updates: Vec<(usize, usize)> = Vec::new();
    let mut i: usize = 0;
    while i < desired.len()
        invariant
            i <= desired.len(),
            dk == key_views(desired@),
            ak == key_views(actual@),
            ints(inserts@) == positions_below(Bucket::Insert, dk, ak, i as int),
            updates@.len() == positions_below(Bucket::Update, dk, ak, i as int).len(),
            forall|n: int|
                0 <= n < updates@.len() ==> {
                    &&& (#[trigger] updates@[n]).0 == positions_below(
                        Bucket::Update,
                        dk,
                        ak,
                        i as int,
                    )[n]
                    &&& updates@[n].1 == last_position(
                        ak,
                        dk[positions_below(Bucket::Update, dk, ak, i as int)[n]]->0,
                    )
                },
        decreases desired.len() - i,
    {
        let ghost old_inserts = inserts@;
        match &desired[i] {
            Some(k) => {
                let own = find_last(desired, k);
                let counted = match own {
                    Some(p) => p == i,
                    None => false,
                };
                if counted {
                    match find_last(actual, k) {
                        Some(j) => {
                            updates.push((i, j));
                        },
                        None => {
                            inserts.push(i);
                            assert(ints(inserts@) == ints(old_inserts).push(i as int));
                        },
                    }
                }
            },
            None => {},
        }
        i = i + 1;
    }
    let mut deletes: Vec<usize> = Vec::new();
    let mut j: usize = 0;
    while j < actual.len()
        invariant
            j <= actual.len(),
            dk == key_views(desired@),
            ak == key_views(actual@),
            ints(deletes@) == positions_below(Bucket::Delete, dk, ak, j as int),
        decreases actual.len() - j,
    {
        let ghost old_deletes = deletes@;
        match &actual[j] {
            Some(k) => {
                let own = find_last(actual, k);
                let counted = match own {
                    Some(p) => p == j,
                    None => false,
                };
                if counted {
                    match find_last(desired, k) {
                        Some(_) => {},
                        None => {
                            deletes.push(j);
                            assert(ints(deletes@) == ints(old_deletes).push(j as int));
                        },
                    }
                }
            },
            None => {},
        }
        j = j + 1;
    }
    KeyDiff { inserts, updates, deletes }
}

/// A record with an identity key.
pub trait Keyed {
    /// The record's key; `None` where it has no usable one.
    spec fn key_view(&self) -> Option<Seq<char>>;

    /// The record's key.
    fn key(&self) -> (k: Option<String>)
        ensures
            opt_view(k) == self.key_view(),
    ;
}

/// A string is its own key.
impl Keyed for String {
    open spec fn key_view(&self) -> Option<Seq<char>> {
        Some(self@)
    }

    fn key(&self) -> (k: Option<String>) {
        Some(self.clone())
    }
}

/// The keys of a list of records.
pub open spec fn keys_of<T: Keyed>(records: Seq<T>) -> Keys {
    Seq::new(records.len(), |i: int| records[i].key_view())
}

/// The keys of the records, in list order.
pub fn collect_keys<T: Keyed>(records: &Vec<T>) -> (r: Vec<Option<String>>)
    ensures
        r@.len() == records@.len(),
        key_views(r@) == keys_of(records@),
{
    let mut out: Vec<Option<String>> = Vec::new();
    let mut i: usize = 0;
    while i < records.len()
        invariant
            i <= records.len(),
            out@.len() == i,
            forall|j: int| 0 <= j < i ==> opt_view(#[trigger] out@[j]) == records@[j].key_view(),
        decreases records.len() - i,
    {
        out.push(records[i].key());
        i = i + 1;
    }
    out
}

/// The records as slots that can be emptied one by one.
fn into_slots<T>(records: Vec<T>) -> (r: Vec<Option<T>>)
    ensures
        r@.len() == records@.len(),
        forall|i: int| 0 <= i < r@.len() ==> #[trigger] r@[i] == Some(records@[i]),
{
    let ghost all = records@;
    let mut queue = Queue::new(records);
    let mut out: Vec<Option<T>> = Vec::new();
    while queue.len() > 0
        invariant
            out@.len() + queue@.len() == all.len(),
            queue@ == all.skip(out@.len() as int),
            forall|i: int| 0 <= i < out@.len() ==> #[trigger] out@[i] == Some(all[i]),
        decreases queue@.len(),
    {
        assert(all.skip(out@.len() as int).skip(1) == all.skip(out@.len() as int + 1));
        match queue.next() {
            Some(x) => out.push(Some(x)),
            None => {},
        }
    }
    out
}

/// Empties slot `i` and hands out what it held.
fn take_at<T>(slots: &mut Vec<Option<T>>, i: usize) -> (t: Option<T>)
    requires
        i < old(slots)@.len(),
    ensures
        t == old(slots)@[i as int],
        final(slots)@ == old(slots)@.update(i as int, None),
{
    slots.push(None);
    let t = slots.swap_remove(i);
    t
}

/// A changeset: the records to insert, the pairs of a desired record and
/// the actual record it matches to update, and the records to delete.
#[derive(Debug, PartialEq, Eq)]
pub struct Changeset<V, W> {
    pub inserts: Vec<V>,
    pub updates: Vec<(V, W)>,
    pub deletes: Vec<W>,
}

/// The records to insert: the desired records at the insert positions.
pub open spec fn inserts_of<V: Keyed, W: Keyed>(desired: Seq<V>, actual: Seq<W>) -> Seq<V> {
    Seq::new(
        positions(Bucket::Insert, keys_of(desired), keys_of(actual)).len(),
        |n: int| desired[positions(Bucket::Insert, keys_of(desired), keys_of(actual))[n]],
    )
}

/// The records to update: each desired record at an update position, with
/// the actual record that counts for the same key.
pub open spec fn updates_of<V: Keyed, W: Keyed>(desired: Seq<V>, actual: Seq<W>) -> Seq<(V, W)> {
    Seq::new(
        positions(Bucket::Update, keys_of(desired), keys_of(actual)).len(),
        |n: int|
            (
                desired[positions(Bucket::Update, keys_of(desired), keys_of(actual))[n]],
                actual[last_position(
                    keys_of(actual),
                    keys_of(desired)[positions(
                        Bucket::Update,
                        keys_of(desired),
                        keys_of(actual),
                    )[n]]->0,
                )],
            ),
    )
}

/// The records to delete: the actual records at the delete positions.
pub open spec fn deletes_of<V: Keyed, W: Keyed>(desired: Seq<V>, actual: Seq<W>) -> Seq<W> {
    Seq::new(
        positions(Bucket::Delete, keys_of(desired), keys_of(actual)).len(),
        |n: int| actual[positions(Bucket::Delete, keys_of(desired), keys_of(actual))[n]],
    )
}

impl<V: Keyed, W: Keyed> Changeset<V, W> {
    /// This is the changeset that brings `actual` to `desired`: each bucket
    /// holds the records at its positions, in rising order of position, and
    /// an update pairs a desired record with the actual record that counts
    /// for the same key.
    pub open spec fn is_diff_of(&self, desired: Seq<V>, actual: Seq<W>) -> bool {
        &&& self.inserts@ == inserts_of(desired, actual)
        &&& self.updates@ == updates_of(desired, actual)
        &&& self.deletes@ == deletes_of(desired, actual)
    }
}

/// Two records of the desired list that both go to an update have
/// different keys, and so match different actual records.
proof fn lemma_update_targets_differ(desired: Keys, actual: Keys, x: int, y: int)
    requires
        0 <= x < y < positions(Bucket::Update, desired, actual).len(),
    ensures
        last_position(actual, desired[positions(Bucket::Update, desired, actual)[x]]->0)
            != last_position(actual, desired[positions(Bucket::Update, desired, actual)[y]]->0),
{
    let u = positions(Bucket::Update, desired, actual);
    lemma_positions(Bucket::Update, desired, actual);
    assert(in_bucket(Bucket::Update, desired, actual, u[x]));
    assert(in_bucket(Bucket::Update, desired, actual, u[y]));
    lemma_last_position(actual, desired[u[x]]->0);
    lemma_last_position(actual, desired[u[y]]->0);
}

/// The reconciler. Splits the desired and the actual records by key into
/// those to insert (key only on the desired side), those to update (key on
/// both sides, as pairs) and those to delete (key only on the actual side).
/// A record without a key is dropped; of several records with one key the
/// last counts.
pub fn diff<V: Keyed, W: Keyed>(desired: Vec<V>, actual: Vec<W>) -> (r: Changeset<V, W>)
    ensures
        r.is_diff_of(desired@, actual@),
{
    let ghost dk = keys_of(desired@);
    let ghost ak = keys_of(actual@);
    let dkeys = collect_keys(&desired);
    let akeys = collect_keys(&actual);
    let plan = diff_keys(&dkeys, &akeys);
    let ghost ins = positions(Bucket::Insert, dk, ak);
    let ghost upd = positions(Bucket::Update, dk, ak);
    let ghost del = positions(Bucket::Delete, dk, ak);
    proof {
        lemma_positions(Bucket::Insert, dk, ak);
        lemma_positions(Bucket::Update, dk, ak);
        lemma_positions(Bucket::Delete, dk, ak);
    }
    let mut dslots = into_slots(desired);
    let mut aslots = into_slots(actual);

    let mut inserts: Vec<V> = Vec::new();
    let mut n: usize = 0;
    while n < plan.inserts.len()
        invariant
            n <= plan.inserts@.len(),
            ints(plan.inserts@) == ins,
            forall|x: int| 0 <= x < ins.len() ==> 0 <= #[trigger] ins[x] < desired@.len(),
            forall|x: int, y: int| 0 <= x < y < ins.len() ==> ins[x] < ins[y],
            dslots@.len() == desired@.len(),
            forall|i: int|
                0 <= i < dslots@.len() ==> #[trigger] dslots@[i] == if exists|m: int|
                    0 <= m < n && ins[m] == i {
                    None
                } else {
                    Some(desired@[i])
                },
            inserts@.len() == n,
            forall|m: int| 0 <= m < n ==> #[trigger] inserts@[m] == desired@[ins[m]],
        decreases plan.inserts@.len() - n,
    {
        let p = plan.inserts[n];
        assert(ints(plan.inserts@)[n as int] == p as int);
        assert(ins[n as int] == p);
        let ghost before = dslots@;
        let taken = take_at(&mut dslots, p);
        assert(taken == Some(desired@[p as int])) by {
            if exists|m: int| 0 <= m < n && ins[m] == p as int {
                let m = choose|m: int| 0 <= m < n && ins[m] == p as int;
                assert(ins[m] < ins[n as int]);
            }
        }
        inserts.push(taken.unwrap());
        assert forall|i: int| 0 <= i < dslots@.len() implies #[trigger] dslots@[i] == if exists|
            m: int,
        |
            0 <= m < n + 1 && ins[m] == i {
            None
        } else {
            Some(desired@[i])
        } by {
            if i == p as int {
                assert(ins[n as int] == i);
            } else {
                assert(dslots@[i] == before[i]);
                if exists|m: int| 0 <= m < n + 1 && ins[m] == i {
                    let m = choose|m: int| 0 <= m < n + 1 && ins[m] == i;
                    assert(m < n);
                }
            }
        }
        n = n + 1;
    }

    let mut updates: Vec<(V, W)> = Vec::new();
    let mut n: usize = 0;
    while n < plan.updates.len()
        invariant
            n <= plan.updates@.len(),
            dk == keys_of(desired@),
            ak == keys_of(actual@),
            upd == positions(Bucket::Update, dk, ak),
            ins == positions(Bucket::Insert, dk, ak),
            plan.updates@.len() == upd.len(),
            forall|m: int|
                0 <= m < upd.len() ==> (#[trigger] plan.updates@[m]).0 == upd[m]
                    && plan.updates@[m].1 == last_position(ak, dk[upd[m]]->0),
            forall|x: int| 0 <= x < upd.len() ==> in_bucket(Bucket::Update, dk, ak, #[trigger] upd[x]),
            forall|x: int| 0 <= x < ins.len() ==> in_bucket(Bucket::Insert, dk, ak, #[trigger] ins[x]),
            forall|x: int, y: int| 0 <= x < y < upd.len() ==> upd[x] < upd[y],
            dslots@.len() == desired@.len(),
            aslots@.len() == actual@.len(),
            forall|i: int|
                0 <= i < dslots@.len() ==> #[trigger] dslots@[i] == if (exists|m: int|
                    0 <= m < ins.len() && ins[m] == i) || (exists|m: int|
                    0 <= m < n && upd[m] == i) {
                    None
                } else {
                    Some(desired@[i])
                },
            forall|j: int|
                0 <= j < aslots@.len() ==> #[trigger] aslots@[j] == if exists|m: int|
                    0 <= m < n && last_position(ak, dk[upd[m]]->0) == j {
                    None
                } else {
                    Some(actual@[j])
                },
            updates@.len() == n,
            forall|m: int|
                0 <= m < n ==> #[trigger] updates@[m] == (
                    desired@[upd[m]],
                    actual@[last_position(ak, dk[upd[m]]->0)],
                ),
        decreases plan.updates@.len() - n,
    {
        let (p, q) = plan.updates[n];
        assert(plan.updates@[n as int].0 == upd[n as int]);
        let ghost k = dk[p as int]->0;
        assert(in_bucket(Bucket::Update, dk, ak, upd[n as int]));
        proof {
            lemma_last_position(ak, k);
        }
        let ghost dbefore = dslots@;
        let ghost abefore = aslots@;
        let left = take_at(&mut dslots, p);
        assert(left == Some(desired@[p as int])) by {
            if exists|m: int| 0 <= m < ins.len() && ins[m] == p as int {
                let m = choose|m: int| 0 <= m < ins.len() && ins[m] == p as int;
                assert(in_bucket(Bucket::Insert, dk, ak, ins[m]));
            }
            if exists|m: int| 0 <= m < n && upd[m] == p as int {
                let m = choose|m: int| 0 <= m < n && upd[m] == p as int;
                assert(upd[m] < upd[n as int]);
            }
        }
        let right = take_at(&mut aslots, q);
        assert(right == Some(actual@[q as int])) by {
            if exists|m: int| 0 <= m < n && last_position(ak, dk[upd[m]]->0) == q as int {
                let m = choose|m: int| 0 <= m < n && last_position(ak, dk[upd[m]]->0) == q as int;
                lemma_update_targets_differ(dk, ak, m, n as int);
            }
        }
        updates.push((left.unwrap(), right.unwrap()));
        assert forall|i: int| 0 <= i < dslots@.len() implies #[trigger] dslots@[i] == if (exists|
            m: int,
        |
            0 <= m < ins.len() && ins[m] == i) || (exists|m: int| 0 <= m < n + 1 && upd[m] == i) {
            None
        } else {
            Some(desired@[i])
        } by {
            if i == p as int {
                assert(upd[n as int] == i);
            } else {
                assert(dslots@[i] == dbefore[i]);
                if exists|m: int| 0 <= m < n + 1 && upd[m] == i {
                    let m = choose|m: int| 0 <= m < n + 1 && upd[m] == i;
                    assert(m < n);
                }
            }
        }
        assert forall|j: int| 0 <= j < aslots@.len() implies #[trigger] aslots@[j] == if exists|
            m: int,
        |
            0 <= m < n + 1 && last_position(ak, dk[upd[m]]->0) == j {
            None
        } else {
            Some(actual@[j])
        } by {
            if j == q as int {
                assert(last_position(ak, dk[upd[n as int]]->0) == j);
            } else {
                assert(aslots@[j] == abefore[j]);
                if exists|m: int| 0 <= m < n + 1 && last_position(ak, dk[upd[m]]->0) == j {
                    let m = choose|m: int|
                        0 <= m < n + 1 && last_position(ak, dk[upd[m]]->0) == j;
                    assert(m < n);
                }
            }
        }
        n = n + 1;
    }

    let mut deletes: Vec<W> = Vec::new();
    let mut n: usize = 0;
    while n < plan.deletes.len()
        invariant
            n <= plan.deletes@.len(),
            dk == keys_of(desired@),
            ak == keys_of(actual@),
            upd == positions(Bucket::Update, dk, ak),
            del == positions(Bucket::Delete, dk, ak),
            ints(plan.deletes@) == del,
            forall|x: int| 0 <= x < upd.len() ==> in_bucket(Bucket::Update, dk, ak, #[trigger] upd[x]),
            forall|x: int| 0 <= x < del.len() ==> in_bucket(Bucket::Delete, dk, ak, #[trigger] del[x]),
            forall|x: int, y: int| 0 <= x < y < del.len() ==> del[x] < del[y],
            aslots@.len() == actual@.len(),
            forall|j: int|
                0 <= j < aslots@.len() ==> #[trigger] aslots@[j] == if (exists|m: int|
                    0 <= m < upd.len() && last_position(ak, dk[upd[m]]->0) == j) || (exists|
                    m: int,
                | 0 <= m < n && del[m] == j) {
                    None
                } else {
                    Some(actual@[j])
                },
            deletes@.len() == n,
            forall|m: int| 0 <= m < n ==> #[trigger] deletes@[m] == actual@[del[m]],
        decreases plan.deletes@.len() - n,
    {
        let q = plan.deletes[n];
        assert(ints(plan.deletes@)[n as int] == q as int);
        assert(del[n as int] == q);
        assert(in_bucket(Bucket::Delete, dk, ak, del[n as int]));
        let ghost abefore = aslots@;
        let taken = take_at(&mut aslots, q);
        assert(taken == Some(actual@[q as int])) by {
            if exists|m: int| 0 <= m < upd.len() && last_position(ak, dk[upd[m]]->0) == q as int {
                let m = choose|m: int|
                    0 <= m < upd.len() && last_position(ak, dk[upd[m]]->0) == q as int;
                assert(in_bucket(Bucket::Update, dk, ak, upd[m]));
                lemma_last_position(ak, dk[upd[m]]->0);
                lemma_has_key(dk, dk[upd[m]]->0);
            }
            if exists|m: int| 0 <= m < n && del[m] == q as int {
                let m = choose|m: int| 0 <= m < n && del[m] == q as int;
                assert(del[m] < del[n as int]);
            }
        }
        deletes.push(taken.unwrap());
        assert forall|j: int| 0 <= j < aslots@.len() implies #[trigger] aslots@[j] == if (exists|
            m: int,
        |
            0 <= m < upd.len() && last_position(ak, dk[upd[m]]->0) == j) || (exists|m: int|
            0 <= m < n + 1 && del[m] == j) {
            None
        } else {
            Some(actual@[j])
        } by {
            if j == q as int {
                assert(del[n as int] == j);
            } else {
                assert(aslots@[j] == abefore[j]);
                if exists|m: int| 0 <= m < n + 1 && del[m] == j {
                    let m = choose|m: int| 0 <= m < n + 1 && del[m] == j;
                    assert(m < n);
                }
            }
        }
        n = n + 1;
    }
    let r = Changeset { inserts, updates, deletes };
    proof {
        assert(r.inserts@.len() == ins.len());
        assert(r.inserts@ =~= inserts_of(desired@, actual@));
        assert(r.updates@.len() == upd.len());
        assert(r.updates@ =~= updates_of(desired@, actual@));
        assert(r.deletes@.len() == del.len());
        assert(r.deletes@ =~= deletes_of(desired@, actual@));
    }
    r
}

/// The set of the strings of a list.
pub open spec fn string_set(list: Seq<String>) -> Set<Seq<char>> {
    Set::new(|k: Seq<char>| exists|i: int| 0 <= i < list.len() && #[trigger] list[i]@ == k)
}

/// Whether `k` is among the strings of the list.
pub fn contains_string(list: &[String], k: &String) -> (b: bool)
    ensures
        b == string_set(list@).contains(k@),
{
    let mut i: usize = 0;
    while i < list.len()
        invariant
            i <= list.len(),
            forall|j: int| 0 <= j < i ==> #[trigger] list@[j]@ != k@,
        decreases list.len() - i,
    {
        if list[i] == *k {
            return true;
        }
        i = i + 1;
    }
    false
}

/// The record's key is one of the pinned keys.
pub open spec fn is_pinned<T: Keyed>(record: T, pinned: Set<Seq<char>>) -> bool {
    record.key_view() is Some && pinned.contains(record.key_view()->0)
}

/// The records whose key is not pinned, in their order.
pub open spec fn unpinned<T: Keyed>(records: Seq<T>, pinned: Set<Seq<char>>) -> Seq<T>
    decreases records.len(),
{
    if records.len() == 0 {
        Seq::empty()
    } else if is_pinned(records.last(), pinned) {
        unpinned(records.drop_last(), pinned)
    } else {
        unpinned(records.drop_last(), pinned).push(records.last())
    }
}

/// Exclusion keeps exactly the records that are not pinned: no pinned key
/// is left, and every other record stays.
pub proof fn lemma_unpinned<T: Keyed>(records: Seq<T>, pinned: Set<Seq<char>>)
    ensures
        forall|x: T|
            #[trigger] unpinned(records, pinned).contains(x) <==> records.contains(x) && !is_pinned(
                x,
                pinned,
            ),
        unpinned(records, pinned).len() <= records.len(),
    decreases records.len(),
{
    let out = unpinned(records, pinned);
    if records.len() == 0 {
    } else {
        let rest = records.drop_last();
        let last = records.last();
        lemma_unpinned(rest, pinned);
        let sub = unpinned(rest, pinned);
        assert forall|x: T| #[trigger] out.contains(x) <==> records.contains(x) && !is_pinned(
            x,
            pinned,
        ) by {
            assert(sub.contains(x) <==> rest.contains(x) && !is_pinned(x, pinned));
            if out.contains(x) {
                let n = choose|n: int| 0 <= n < out.len() && out[n] == x;
                if n < sub.len() {
                    assert(sub[n] == x);
                    assert(sub.contains(x));
                    let m = choose|m: int| 0 <= m < rest.len() && rest[m] == x;
                    assert(records[m] == x);
                } else {
                    assert(x == last);
                    assert(records[records.len() - 1] == x);
                }
            }
            if records.contains(x) && !is_pinned(x, pinned) {
                let m = choose|m: int| 0 <= m < records.len() && records[m] == x;
                if m < rest.len() {
                    assert(rest[m] == x);
                    assert(rest.contains(x));
                    let n = choose|n: int| 0 <= n < sub.len() && sub[n] == x;
                    assert(out[n] == x);
                } else {
                    assert(out[out.len() - 1] == x);
                }
            }
        }
    }
}

/// Drops the records whose key is pinned; the others stay, in their order.
pub fn exclude<T: Keyed>(records: Vec<T>, pinned: &[String]) -> (r: Vec<T>)
    ensures
        r@ == unpinned(records@, string_set(pinned@)),
{
    let ghost all = records@;
    let ghost pins = string_set(pinned@);
    let keys = collect_keys(&records);
    let mut queue = Queue::new(records);
    let mut out: Vec<T> = Vec::new();
    let total = keys.len();
    let mut i: usize = 0;
    while queue.len() > 0
        invariant
            i + queue@.len() == all.len(),
            queue@ == all.skip(i as int),
            total == all.len(),
            keys@.len() == all.len(),
            key_views(keys@) == keys_of(all),
            pins == string_set(pinned@),
            out@ == unpinned(all.take(i as int), pins),
        decreases queue@.len(),
    {
        assert(all.skip(i as int).skip(1) == all.skip(i + 1));
        match queue.next() {
            Some(record) => {
                assert(all.take(i + 1).drop_last() == all.take(i as int));
                assert(all.take(i + 1).last() == all[i as int]);
                assert(opt_view(keys@[i as int]) == key_views(keys@)[i as int]);
                assert(keys_of(all)[i as int] == all[i as int].key_view());
                let drop = match &keys[i] {
                    Some(k) => contains_string(pinned, k),
                    None => false,
                };
                if !drop {
                    out.push(record);
                }
                i = i + 1;
            },
            None => {},
        }
    }
    assert(all.take(all.len() as int) == all);
    out
}

impl<V: Keyed, W: Keyed> Changeset<V, W> {
    /// Takes the pinned keys out of the inserts and the deletes, so that an
    /// identity that someone else manages is neither created nor removed.
    /// The updates stay as they are.
    pub fn exclude(self, pinned: &[String]) -> (r: Changeset<V, W>)
        ensures
            r.inserts@ == unpinned(self.inserts@, string_set(pinned@)),
            r.updates@ == self.updates@,
            r.deletes@ == unpinned(self.deletes@, string_set(pinned@)),
    {
        let inserts = exclude(self.inserts, pinned);
        let deletes = exclude(self.deletes, pinned);
        Changeset { inserts, updates: self.updates, deletes }
    }
}

/// The keys that are not pinned, in their order.
pub open spec fn without(keys: Seq<Seq<char>>, pinned: Set<Seq<char>>) -> Seq<Seq<char>>
    decreases keys.len(),
{
    if keys.len() == 0 {
        Seq::empty()
    } else if pinned.contains(keys.last()) {
        without(keys.drop_last(), pinned)
    } else {
        without(keys.drop_last(), pinned).push(keys.last())
    }
}

/// What is left of a list of keys holds no pinned key and every other key
/// of the list.
pub proof fn lemma_without(keys: Seq<Seq<char>>, pinned: Set<Seq<char>>)
    ensures
        forall|k: Seq<char>|
            #[trigger] without(keys, pinned).contains(k) <==> keys.contains(k) && !pinned.contains(
                k,
            ),
        without(keys, pinned).len() <= keys.len(),
        keys.no_duplicates() ==> without(keys, pinned).no_duplicates(),
    decreases keys.len(),
{
    let out = without(keys, pinned);
    if keys.len() == 0 {
    } else {
        let rest = keys.drop_last();
        let last = keys.last();
        lemma_without(rest, pinned);
        let sub = without(rest, pinned);
        assert forall|k: Seq<char>| #[trigger] out.contains(k) <==> keys.contains(k)
            && !pinned.contains(k) by {
            assert(sub.contains(k) <==> rest.contains(k) && !pinned.contains(k));
            if out.contains(k) {
                let n = choose|n: int| 0 <= n < out.len() && out[n] == k;
                if n < sub.len() {
                    assert(sub[n] == k);
                    assert(sub.contains(k));
                    let m = choose|m: int| 0 <= m < rest.len() && rest[m] == k;
                    assert(keys[m] == k);
                } else {
                    assert(k == last);
                    assert(keys[keys.len() - 1] == k);
                }
            }
            if keys.contains(k) && !pinned.contains(k) {
                let m = choose|m: int| 0 <= m < keys.len() && keys[m] == k;
                if m < rest.len() {
                    assert(rest[m] == k);
                    assert(rest.contains(k));
                    let n = choose|n: int| 0 <= n < sub.len() && sub[n] == k;
                    assert(out[n] == k);
                } else {
                    assert(out[out.len() - 1] == k);
                }
            }
        }
        if keys.no_duplicates() {
            assert(rest.no_duplicates()) by {
                assert forall|i: int, j: int|
                    0 <= i < rest.len() && 0 <= j < rest.len() && i != j implies rest[i]
                    != rest[j] by {
                    assert(rest[i] == keys[i] && rest[j] == keys[j]);
                }
            }
            if !pinned.contains(last) {
                assert forall|i: int, j: int|
                    0 <= i < out.len() && 0 <= j < out.len() && i != j implies out[i] != out[j] by {
                    if i < sub.len() && j < sub.len() {
                        assert(out[i] == sub[i] && out[j] == sub[j]);
                    } else {
                        let x = if i < sub.len() {
                            i
                        } else {
                            j
                        };
                        assert(sub.contains(sub[x]));
                        assert(rest.contains(sub[x]));
                        let m = choose|m: int| 0 <= m < rest.len() && rest[m] == sub[x];
                        assert(keys[m] == sub[x]);
                    }
                }
            }
        }
    }
}

/// Excluding pinned keys from a list of strings leaves the strings whose
/// characters are not pinned.
pub proof fn lemma_unpinned_strings(list: Seq<String>, pinned: Set<Seq<char>>)
    ensures
        Seq::new(unpinned(list, pinned).len(), |i: int| unpinned(list, pinned)[i]@) == without(
            Seq::new(list.len(), |i: int| list[i]@),
            pinned,
        ),
    decreases list.len(),
{
    let views = Seq::new(list.len(), |i: int| list[i]@);
    if list.len() == 0 {
    } else {
        let rest = list.drop_last();
        lemma_unpinned_strings(rest, pinned);
        assert(views.drop_last() =~= Seq::new(rest.len(), |i: int| rest[i]@));
        assert(views.last() == list.last()@);
        assert(list.last().key_view() == Some(list.last()@));
    }
}

} // verus!
