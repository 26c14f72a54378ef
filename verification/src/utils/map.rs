//! Hash table of the virtual machine, with separate chaining.
//!
//! Keys and values are object handles. Hashing and key comparison are
//! delegated to the VM (a `KeyOps`), as every operation of the table takes
//! the current VM thread.

use vstd::prelude::*;
use crate::vm::heap::ObjectRef;
use crate::vm::VMError;

verus! {

/// One entry of a bucket: a key and its value.
pub type Entry = (ObjectRef, ObjectRef);

/// How the VM hashes and compares the keys of an `ObjectMap`.
///
/// `spec_eq` must be an equivalence under which equal keys hash alike; an
/// implementation proves this in `lemma_key_laws`. A call may fail with a
/// `VMError` (the VM runs the object's own `__hash__` / `__eq__`); it never
/// fails when `infallible()` holds. `hash_result` and `eq_result` give the
/// outcome of each call, error included.
pub trait KeyOps {
    spec fn spec_hash(key: ObjectRef) -> i64;

    spec fn spec_eq(a: ObjectRef, b: ObjectRef) -> bool;

    spec fn infallible() -> bool;

    /// Outcome of hashing `key`: its hash, or the error the VM raised.
    spec fn hash_result(key: ObjectRef) -> Result<i64, VMError>;

    /// Outcome of comparing `a` with `b`: whether they are equal, or the
    /// error the VM raised.
    spec fn eq_result(a: ObjectRef, b: ObjectRef) -> Result<bool, VMError>;

    proof fn lemma_key_laws(a: ObjectRef, b: ObjectRef, c: ObjectRef)
        ensures
            Self::spec_eq(a, a),
            Self::spec_eq(a, b) ==> Self::spec_eq(b, a),
            Self::spec_eq(a, b) && Self::spec_eq(b, c) ==> Self::spec_eq(a, c),
            Self::spec_eq(a, b) ==> Self::spec_hash(a) == Self::spec_hash(b),
    ;

    /// Hash of a key.
    fn call_hash(&self, key: ObjectRef) -> (r: Result<i64, VMError>)
        ensures
            r == Self::hash_result(key),
            r matches Ok(h) ==> h == Self::spec_hash(key),
            Self::infallible() ==> r is Ok,
    ;

    /// Whether two keys are equal.
    fn call_eq(&self, a: ObjectRef, b: ObjectRef) -> (r: Result<bool, VMError>)
        ensures
            r == Self::eq_result(a, b),
            r matches Ok(e) ==> e == Self::spec_eq(a, b),
            Self::infallible() ==> r is Ok,
    ;
}

/// Keys hashed and compared by handle, as the VM does for objects that
/// define neither `__hash__` nor `__eq__`.
pub struct HandleKeys;

impl KeyOps for HandleKeys {
    open spec fn spec_hash(key: ObjectRef) -> i64 {
        key.0 as i64
    }

    open spec fn spec_eq(a: ObjectRef, b: ObjectRef) -> bool {
        a == b
    }

    open spec fn infallible() -> bool {
        true
    }

    open spec fn hash_result(key: ObjectRef) -> Result<i64, VMError> {
        Ok(key.0 as i64)
    }

    open spec fn eq_result(a: ObjectRef, b: ObjectRef) -> Result<bool, VMError> {
        Ok(a == b)
    }

    proof fn lemma_key_laws(a: ObjectRef, b: ObjectRef, c: ObjectRef) {
    }

    fn call_hash(&self, key: ObjectRef) -> (r: Result<i64, VMError>) {
        Ok(key.0 as i64)
    }

    fn call_eq(&self, a: ObjectRef, b: ObjectRef) -> (r: Result<bool, VMError>) {
        Ok(a.0 == b.0)
    }
}

/// The bucket that a hash selects among `n` buckets.
pub open spec fn slot(hash: i64, n: nat) -> int {
    ((hash as usize) % (n as usize)) as int
}

proof fn lemma_slot_bound(hash: i64, n: nat)
    requires
        0 < n <= usize::MAX,
    ensures
        0 <= slot(hash, n) < n,
{
}

/// Number of entries over a sequence of buckets.
pub open spec fn total_len(bs: Seq<Seq<Entry>>) -> nat
    decreases bs.len(),
{
    if bs.len() == 0 {
        0
    } else {
        total_len(bs.drop_last()) + bs.last().len()
    }
}

proof fn lemma_total_len_update(bs: Seq<Seq<Entry>>, i: int, b: Seq<Entry>)
    requires
        0 <= i < bs.len(),
    ensures
        total_len(bs.update(i, b)) + bs[i].len() == total_len(bs) + b.len(),
    decreases bs.len(),
{
    let u = bs.update(i, b);
    if i == bs.len() - 1 {
        assert(u.drop_last() =~= bs.drop_last());
    } else {
        lemma_total_len_update(bs.drop_last(), i, b);
        assert(u.drop_last() =~= bs.drop_last().update(i, b));
    }
}

proof fn lemma_total_len_ge(bs: Seq<Seq<Entry>>, i: int)
    requires
        0 <= i < bs.len(),
    ensures
        total_len(bs) >= bs[i].len(),
    decreases bs.len(),
{
    if i < bs.len() - 1 {
        lemma_total_len_ge(bs.drop_last(), i);
    }
}

proof fn lemma_total_len_all_empty(bs: Seq<Seq<Entry>>)
    requires
        forall|i: int| 0 <= i < bs.len() ==> #[trigger] bs[i].len() == 0,
    ensures
        total_len(bs) == 0,
    decreases bs.len(),
{
    if bs.len() > 0 {
        lemma_total_len_all_empty(bs.drop_last());
    }
}

proof fn lemma_total_len_zero(bs: Seq<Seq<Entry>>, i: int)
    requires
        total_len(bs) == 0,
        0 <= i < bs.len(),
    ensures
        bs[i].len() == 0,
    decreases bs.len(),
{
    if i < bs.len() - 1 {
        lemma_total_len_zero(bs.drop_last(), i);
    }
}

/// The stored key equivalent to `k`, if any.
pub open spec fn find_key<T: KeyOps>(m: Map<ObjectRef, ObjectRef>, k: ObjectRef) -> Option<
    ObjectRef,
> {
    if exists|k2: ObjectRef| m.dom().contains(k2) && T::spec_eq(k2, k) {
        Some(choose|k2: ObjectRef| m.dom().contains(k2) && T::spec_eq(k2, k))
    } else {
        None
    }
}

/// The value stored under a key equivalent to `k`, if any.
pub open spec fn lookup<T: KeyOps>(m: Map<ObjectRef, ObjectRef>, k: ObjectRef) -> Option<
    ObjectRef,
> {
    match find_key::<T>(m, k) {
        Some(k2) => Some(m[k2]),
        None => None,
    }
}

/// Outcome of comparing `key` with the keys of `bucket` from position `j`
/// on, in order: the value of the first key found equal, `None` when there
/// is none, or the error of the first comparison that fails.
pub open spec fn scan_bucket<T: KeyOps>(bucket: Seq<Entry>, key: ObjectRef, j: int) -> Result<
    Option<ObjectRef>,
    VMError,
>
    decreases bucket.len() - j,
{
    if j < 0 || j >= bucket.len() {
        Ok(None)
    } else {
        match T::eq_result(bucket[j].0, key) {
            Err(e) => Err(e),
            Ok(true) => Ok(Some(bucket[j].1)),
            Ok(false) => scan_bucket::<T>(bucket, key, j + 1),
        }
    }
}

/// The contents after storing `v` under `k`: an equivalent key already
/// stored keeps its place and takes the new value.
pub open spec fn insert_entry<T: KeyOps>(
    m: Map<ObjectRef, ObjectRef>,
    k: ObjectRef,
    v: ObjectRef,
) -> Map<ObjectRef, ObjectRef> {
    match find_key::<T>(m, k) {
        Some(k2) => m.insert(k2, v),
        None => m.insert(k, v),
    }
}

/// The contents after removing the key equivalent to `k`.
pub open spec fn remove_entry<T: KeyOps>(m: Map<ObjectRef, ObjectRef>, k: ObjectRef) -> Map<
    ObjectRef,
    ObjectRef,
> {
    match find_key::<T>(m, k) {
        Some(k2) => m.remove(k2),
        None => m,
    }
}

/// Storing a value under `key` in a table holding `m` can fail with `e`: the
/// hash of `key`, the hash of a stored key (taken when the table grows), or
/// the comparison of a stored key with `key` gave `e`.
pub open spec fn insert_error<T: KeyOps>(m: Map<ObjectRef, ObjectRef>, key: ObjectRef, e: VMError) -> bool {
    ||| T::hash_result(key) == Err::<i64, VMError>(e)
    ||| exists|k: ObjectRef|
        #![trigger T::hash_result(k)]
        #![trigger T::eq_result(k, key)]
        m.dom().contains(k) && (T::hash_result(k) == Err::<i64, VMError>(e) || T::eq_result(k, key) == Err::<
            bool,
            VMError,
        >(e))
}

/// Every hash and comparison that storing a value under `key` in a table
/// holding `m` may make succeeds.
pub open spec fn insert_calls_ok<T: KeyOps>(m: Map<ObjectRef, ObjectRef>, key: ObjectRef) -> bool {
    &&& T::hash_result(key) is Ok
    &&& forall|k: ObjectRef|
        #![trigger T::hash_result(k)]
        #![trigger T::eq_result(k, key)]
        m.dom().contains(k) ==> T::hash_result(k) is Ok && T::eq_result(k, key) is Ok
}

/// The error of the first key of `s`, in order, whose hash fails; `None`
/// when every key hashes.
pub open spec fn first_key_hash_error<T: KeyOps>(s: Seq<Entry>) -> Option<VMError>
    decreases s.len(),
{
    if s.len() == 0 {
        None
    } else {
        match T::hash_result(s[0].0) {
            Err(e) => Some(e),
            Ok(_) => first_key_hash_error::<T>(s.drop_first()),
        }
    }
}

/// The element views of a sequence of buckets.
pub open spec fn seqs_of(v: Seq<Vec<Entry>>) -> Seq<Seq<Entry>> {
    v.map_values(|b: Vec<Entry>| b@)
}

/// The contents after inserting the pairs of `s` into `m`, in order.
pub open spec fn insert_all<T: KeyOps>(m: Map<ObjectRef, ObjectRef>, s: Seq<Entry>) -> Map<
    ObjectRef,
    ObjectRef,
>
    decreases s.len(),
{
    if s.len() == 0 {
        m
    } else {
        insert_entry::<T>(insert_all::<T>(m, s.drop_last()), s.last().0, s.last().1)
    }
}

/// The entries of buckets `i..` of `bs`, from position `j` of bucket `i` on,
/// in bucket order.
pub open spec fn rest_of(bs: Seq<Seq<Entry>>, i: int, j: int) -> Seq<Entry>
    decreases bs.len() - i,
{
    if i < 0 || i >= bs.len() {
        Seq::empty()
    } else {
        bs[i].subrange(j, bs[i].len() as int) + rest_of(bs, i + 1, 0)
    }
}

/// Stored keys are pairwise inequivalent.
pub open spec fn keys_distinct<T: KeyOps>(m: Map<ObjectRef, ObjectRef>) -> bool {
    forall|a: ObjectRef, b: ObjectRef|
        m.dom().contains(a) && m.dom().contains(b) && a != b ==> !#[trigger] T::spec_eq(a, b)
}

/// A stored key equivalent to `q` is the one `find_key` names.
pub proof fn lemma_find_key_unique<T: KeyOps>(m: Map<ObjectRef, ObjectRef>, q: ObjectRef, c: ObjectRef)
    requires
        keys_distinct::<T>(m),
        m.dom().contains(c),
        T::spec_eq(c, q),
    ensures
        find_key::<T>(m, q) == Some(c),
{
    assert(m.dom().contains(c) && T::spec_eq(c, q));
    let d = find_key::<T>(m, q)->0;
    assert(m.dom().contains(d) && T::spec_eq(d, q));
    T::lemma_key_laws(q, c, c);
    T::lemma_key_laws(c, q, d);
    T::lemma_key_laws(d, q, c);
}

/// No stored key is equivalent to `q` exactly when `find_key` names none.
proof fn lemma_find_key_none<T: KeyOps>(m: Map<ObjectRef, ObjectRef>, q: ObjectRef)
    ensures
        find_key::<T>(m, q) is None <==> forall|c: ObjectRef| m.dom().contains(c) ==> !T::spec_eq(c, q),
{
}

/// Reading a key after storing a value: a key equivalent to the one stored
/// gives the new value, any other key what it gave before. Stored keys stay
/// pairwise inequivalent.
pub proof fn lemma_lookup_after_insert<T: KeyOps>(
    m: Map<ObjectRef, ObjectRef>,
    k: ObjectRef,
    v: ObjectRef,
    q: ObjectRef,
)
    requires
        keys_distinct::<T>(m),
    ensures
        keys_distinct::<T>(insert_entry::<T>(m, k, v)),
        lookup::<T>(insert_entry::<T>(m, k, v), q) == if T::spec_eq(k, q) {
            Some(v)
        } else {
            lookup::<T>(m, q)
        },
{
    let m2 = insert_entry::<T>(m, k, v);
    T::lemma_key_laws(k, k, k);
    T::lemma_key_laws(k, q, q);
    T::lemma_key_laws(q, k, k);
    match find_key::<T>(m, k) {
        Some(k2) => {
            assert(m.dom().contains(k2) && T::spec_eq(k2, k));
            assert(m2.dom() =~= m.dom());
            assert(keys_distinct::<T>(m2));
            if T::spec_eq(k, q) {
                T::lemma_key_laws(k2, k, q);
                lemma_find_key_unique::<T>(m2, q, k2);
            } else {
                if find_key::<T>(m, q) is Some {
                    let k3 = find_key::<T>(m, q)->0;
                    assert(m.dom().contains(k3) && T::spec_eq(k3, q));
                    if k3 == k2 {
                        T::lemma_key_laws(k, k2, q);
                        T::lemma_key_laws(k2, k, k);
                    }
                    lemma_find_key_unique::<T>(m2, q, k3);
                } else {
                    lemma_find_key_none::<T>(m, q);
                    lemma_find_key_none::<T>(m2, q);
                }
            }
        },
        None => {
            lemma_find_key_none::<T>(m, k);
            assert(!m.dom().contains(k));
            assert forall|a: ObjectRef, b: ObjectRef|
                m2.dom().contains(a) && m2.dom().contains(b) && a != b implies !#[trigger] T::spec_eq(a, b) by {
                if a == k {
                    T::lemma_key_laws(a, b, b);
                    assert(m.dom().contains(b) ==> !T::spec_eq(b, k));
                } else if b == k {
                    assert(m.dom().contains(a) ==> !T::spec_eq(a, k));
                }
            }
            if T::spec_eq(k, q) {
                lemma_find_key_unique::<T>(m2, q, k);
            } else {
                if find_key::<T>(m, q) is Some {
                    let k3 = find_key::<T>(m, q)->0;
                    assert(m.dom().contains(k3) && T::spec_eq(k3, q));
                    lemma_find_key_unique::<T>(m2, q, k3);
                } else {
                    lemma_find_key_none::<T>(m, q);
                    lemma_find_key_none::<T>(m2, q);
                }
            }
        },
    }
}

/// Reading a key after removing one: a key equivalent to the removed one
/// gives nothing, any other key what it gave before.
pub proof fn lemma_lookup_after_remove<T: KeyOps>(m: Map<ObjectRef, ObjectRef>, k: ObjectRef, q: ObjectRef)
    requires
        keys_distinct::<T>(m),
    ensures
        keys_distinct::<T>(remove_entry::<T>(m, k)),
        lookup::<T>(remove_entry::<T>(m, k), q) == if T::spec_eq(k, q) {
            None
        } else {
            lookup::<T>(m, q)
        },
{
    let m2 = remove_entry::<T>(m, k);
    T::lemma_key_laws(k, q, q);
    T::lemma_key_laws(q, k, k);
    match find_key::<T>(m, k) {
        Some(k2) => {
            assert(m.dom().contains(k2) && T::spec_eq(k2, k));
            if T::spec_eq(k, q) {
                assert forall|c: ObjectRef| m2.dom().contains(c) implies !T::spec_eq(c, q) by {
                    if T::spec_eq(c, q) {
                        T::lemma_key_laws(c, q, k);
                        T::lemma_key_laws(c, k, k2);
                        T::lemma_key_laws(k2, k, k);
                        T::lemma_key_laws(k, k2, c);
                    }
                }
                lemma_find_key_none::<T>(m2, q);
            } else {
                if find_key::<T>(m, q) is Some {
                    let k3 = find_key::<T>(m, q)->0;
                    assert(m.dom().contains(k3) && T::spec_eq(k3, q));
                    if k3 == k2 {
                        T::lemma_key_laws(k, k2, q);
                        T::lemma_key_laws(k2, k, k);
                    }
                    lemma_find_key_unique::<T>(m2, q, k3);
                } else {
                    lemma_find_key_none::<T>(m, q);
                    lemma_find_key_none::<T>(m2, q);
                }
            }
        },
        None => {
            if T::spec_eq(k, q) {
                lemma_find_key_none::<T>(m, k);
                assert forall|c: ObjectRef| m.dom().contains(c) implies !T::spec_eq(c, q) by {
                    if T::spec_eq(c, q) {
                        T::lemma_key_laws(c, q, k);
                    }
                }
                lemma_find_key_none::<T>(m, q);
            }
        },
    }
}

/// Hash table with chaining; the number of buckets doubles when the load
/// factor exceeds 3/4.
pub struct ObjectMap {
    buckets: Vec<Vec<Entry>>,
    len: usize,
}

impl View for ObjectMap {
    type V = Map<ObjectRef, ObjectRef>;

    closed spec fn view(&self) -> Map<ObjectRef, ObjectRef> {
        Map::new(
            |k: ObjectRef| self.has_key(k),
            |k: ObjectRef| self.stored_value(k),
        )
    }
}

impl ObjectMap {

    /// Every entry of `bs` sits in the bucket its hash selects.
    closed spec fn placed<T: KeyOps>(bs: Seq<Vec<Entry>>) -> bool {
        forall|a: int, b: int|
            0 <= a < bs.len() && 0 <= b < bs[a]@.len() ==> slot(T::spec_hash(#[trigger] bs[a]@[b].0), bs.len())
                == a
    }

    /// Keys within each bucket of `bs` are pairwise inequivalent.
    closed spec fn bucket_unique<T: KeyOps>(bs: Seq<Vec<Entry>>) -> bool {
        forall|a: int, b1: int, b2: int|
            0 <= a < bs.len() && 0 <= b1 < bs[a]@.len() && 0 <= b2 < bs[a]@.len() && b1 != b2
                ==> !T::spec_eq(#[trigger] bs[a]@[b1].0, #[trigger] bs[a]@[b2].0)
    }
    closed spec fn valid_pos(&self, i: int, j: int) -> bool {
        0 <= i < self.buckets@.len() && 0 <= j < self.buckets@[i]@.len()
    }

    closed spec fn has_key(&self, k: ObjectRef) -> bool {
        exists|i: int, j: int| self.valid_pos(i, j) && #[trigger] self.buckets@[i]@[j].0 == k
    }

    closed spec fn stored_value(&self, k: ObjectRef) -> ObjectRef {
        let (i, j) = choose|i: int, j: int|
            self.valid_pos(i, j) && #[trigger] self.buckets@[i]@[j].0 == k;
        self.buckets@[i]@[j].1
    }

    closed spec fn bucket_seqs(&self) -> Seq<Seq<Entry>> {
        seqs_of(self.buckets@)
    }

    /// Number of buckets.
    pub closed spec fn bucket_count(&self) -> nat {
        self.buckets@.len()
    }

    /// Number of stored entries.
    pub closed spec fn spec_len(&self) -> nat {
        self.len as nat
    }

    /// Well-formedness under the key semantics `T`: every entry sits in the
    /// bucket its hash selects, keys of a bucket are pairwise inequivalent,
    /// and `len` counts the entries.
    pub closed spec fn wf<T: KeyOps>(&self) -> bool {
        &&& self.buckets@.len() > 0
        &&& forall|i: int, j: int|
            self.valid_pos(i, j) ==> slot(T::spec_hash(#[trigger] self.buckets@[i]@[j].0), self.buckets@.len())
                == i
        &&& forall|i: int, j1: int, j2: int|
            self.valid_pos(i, j1) && self.valid_pos(i, j2) && j1 != j2 ==> !T::spec_eq(
                #[trigger] self.buckets@[i]@[j1].0,
                #[trigger] self.buckets@[i]@[j2].0,
            )
        &&& self.len == total_len(self.bucket_seqs())
    }

    proof fn lemma_same_key_same_pos<T: KeyOps>(&self, i1: int, j1: int, i2: int, j2: int)
        requires
            self.wf::<T>(),
            self.valid_pos(i1, j1),
            self.valid_pos(i2, j2),
            T::spec_eq(self.buckets@[i1]@[j1].0, self.buckets@[i2]@[j2].0),
        ensures
            i1 == i2,
            j1 == j2,
    {
        let a = self.buckets@[i1]@[j1].0;
        let b = self.buckets@[i2]@[j2].0;
        T::lemma_key_laws(a, b, b);
    }

    proof fn lemma_view_facts<T: KeyOps>(&self)
        requires
            self.wf::<T>(),
        ensures
            keys_distinct::<T>(self@),
            forall|i: int, j: int|
                self.valid_pos(i, j) ==> #[trigger] self@.dom().contains(self.buckets@[i]@[j].0)
                    && self@[self.buckets@[i]@[j].0] == self.buckets@[i]@[j].1,
    {
        assert forall|i: int, j: int| self.valid_pos(i, j) implies #[trigger] self@.dom().contains(
            self.buckets@[i]@[j].0,
        ) && self@[self.buckets@[i]@[j].0] == self.buckets@[i]@[j].1 by {
            let k = self.buckets@[i]@[j].0;
            assert(self.has_key(k));
            let (i2, j2) = choose|i2: int, j2: int|
                self.valid_pos(i2, j2) && #[trigger] self.buckets@[i2]@[j2].0 == k;
            T::lemma_key_laws(k, k, k);
            self.lemma_same_key_same_pos::<T>(i, j, i2, j2);
        }
        assert forall|a: ObjectRef, b: ObjectRef|
            self@.dom().contains(a) && self@.dom().contains(b) && a != b implies !#[trigger] T::spec_eq(
            a,
            b,
        ) by {
            let (i1, j1) = choose|i: int, j: int|
                self.valid_pos(i, j) && #[trigger] self.buckets@[i]@[j].0 == a;
            let (i2, j2) = choose|i: int, j: int|
                self.valid_pos(i, j) && #[trigger] self.buckets@[i]@[j].0 == b;
            if T::spec_eq(a, b) {
                self.lemma_same_key_same_pos::<T>(i1, j1, i2, j2);
            }
        }
    }

    /// The stored key equivalent to `k` lies in the bucket of `k`'s hash.
    proof fn lemma_find_in_bucket<T: KeyOps>(&self, k: ObjectRef)
        requires
            self.wf::<T>(),
        ensures
            find_key::<T>(self@, k) is Some ==> {
                let k2 = find_key::<T>(self@, k)->0;
                exists|j: int|
                    self.valid_pos(slot(T::spec_hash(k), self.buckets@.len()), j)
                        && #[trigger] self.buckets@[slot(T::spec_hash(k), self.buckets@.len())]@[j].0
                        == k2
            },
    {
        if find_key::<T>(self@, k) is Some {
            let k2 = find_key::<T>(self@, k)->0;
            assert(self.has_key(k2));
            let (i, j) = choose|i: int, j: int|
                self.valid_pos(i, j) && #[trigger] self.buckets@[i]@[j].0 == k2;
            T::lemma_key_laws(k2, k, k);
            assert(self.buckets@[i]@[j].0 == k2);
        }
    }

    /// The table holds no entry (and has at least one bucket); such a table
    /// is well-formed under every key semantics.
    pub closed spec fn fresh(&self) -> bool {
        &&& self.buckets@.len() > 0
        &&& self.len == 0
        &&& forall|i: int| 0 <= i < self.buckets@.len() ==> #[trigger] self.buckets@[i]@.len() == 0
    }

    /// A well-formed table has buckets, so clearing it leaves it fresh.
    pub proof fn lemma_wf_buckets<T: KeyOps>(&self)
        requires
            self.wf::<T>(),
        ensures
            self.bucket_count() > 0,
    {
    }

    /// A table without entries is well-formed under any key semantics.
    pub proof fn lemma_fresh_wf<T: KeyOps>(&self)
        requires
            self.fresh(),
        ensures
            self.wf::<T>(),
            self@ == Map::<ObjectRef, ObjectRef>::empty(),
    {
        let bs = self.bucket_seqs();
        assert forall|i: int| 0 <= i < bs.len() implies #[trigger] bs[i].len() == 0 by {
            assert(self.buckets@[i]@.len() == 0);
        }
        lemma_total_len_all_empty(bs);
        assert(self@ =~= Map::<ObjectRef, ObjectRef>::empty());
    }

    /// Creates an empty table with 16 buckets.
    pub fn new() -> (r: ObjectMap)
        ensures
            r.fresh(),
            r@ == Map::<ObjectRef, ObjectRef>::empty(),
            r.spec_len() == 0,
            r.bucket_count() == 16,
    {
        Self::with_capacity(16)
    }

    /// Creates an empty table with `capacity` buckets (at least one).
    pub fn with_capacity(capacity: usize) -> (r: ObjectMap)
        ensures
            r.fresh(),
            r@ == Map::<ObjectRef, ObjectRef>::empty(),
            r.spec_len() == 0,
            r.bucket_count() == if capacity == 0 { 1 } else { capacity as nat },
    {
        let cap = if capacity == 0 { 1 } else { capacity };
        let mut buckets: Vec<Vec<Entry>> = Vec::new();
        let mut n: usize = 0;
        while n < cap
            invariant
                n <= cap,
                buckets@.len() == n,
                forall|i: int| 0 <= i < n ==> #[trigger] buckets@[i]@.len() == 0,
            decreases cap - n,
        {
            buckets.push(Vec::new());
            n = n + 1;
        }
        let r = ObjectMap { buckets, len: 0 };
        proof {
            r.lemma_fresh_wf::<HandleKeys>();
        }
        r
    }

    /// Number of entries.
    pub fn len(&self) -> (r: usize)
        ensures
            r == self.spec_len(),
    {
        self.len
    }

    /// Whether the table holds no entry.
    pub fn is_empty(&self) -> (r: bool)
        ensures
            r == (self.spec_len() == 0),
    {
        self.len == 0
    }

    /// Index of the bucket for `key`.
    fn bucket_index<T: KeyOps>(&self, thread: &T, key: ObjectRef) -> (r: Result<usize, VMError>)
        requires
            self.buckets@.len() > 0,
        ensures
            r matches Ok(i) ==> i == slot(T::spec_hash(key), self.buckets@.len()),
            r matches Err(e) ==> T::hash_result(key) == Err::<i64, VMError>(e),
            T::hash_result(key) is Ok ==> r is Ok,
            r is Ok ==> T::hash_result(key) == Ok::<i64, VMError>(T::spec_hash(key)),
            T::infallible() ==> r is Ok,
    {
        let hash = match self.hash_key(thread, key) {
            Ok(h) => h,
            Err(e) => return Err(e),
        };
        Ok((hash as usize) % self.buckets.len())
    }

    fn hash_key<T: KeyOps>(&self, thread: &T, key: ObjectRef) -> (r: Result<i64, VMError>)
        ensures
            r == T::hash_result(key),
            r matches Ok(h) ==> h == T::spec_hash(key),
            T::infallible() ==> r is Ok,
    {
        thread.call_hash(key)
    }

    fn keys_equal<T: KeyOps>(&self, thread: &T, key1: ObjectRef, key2: ObjectRef) -> (r: Result<
        bool,
        VMError,
    >)
        ensures
            r == T::eq_result(key1, key2),
            r matches Ok(e) ==> e == T::spec_eq(key1, key2),
            T::infallible() ==> r is Ok,
    {
        thread.call_eq(key1, key2)
    }

    /// If some stored key is equivalent to `key` and sits at position `j` of
    /// bucket `i`, that key is the one `find_key` names.
    proof fn lemma_found<T: KeyOps>(&self, key: ObjectRef, i: int, j: int)
        requires
            self.wf::<T>(),
            self.valid_pos(i, j),
            T::spec_eq(self.buckets@[i]@[j].0, key),
        ensures
            find_key::<T>(self@, key) == Some(self.buckets@[i]@[j].0),
            lookup::<T>(self@, key) == Some(self.buckets@[i]@[j].1),
    {
        self.lemma_view_facts::<T>();
        let k1 = self.buckets@[i]@[j].0;
        assert(self@.dom().contains(k1) && T::spec_eq(k1, key));
        let k2 = find_key::<T>(self@, key)->0;
        assert(self@.dom().contains(k2) && T::spec_eq(k2, key));
        T::lemma_key_laws(k1, key, k2);
        T::lemma_key_laws(key, k2, k2);
        T::lemma_key_laws(k2, key, k1);
        assert(T::spec_eq(k2, k1));
        assert(k2 == k1);
        assert(self@[k1] == self.buckets@[i]@[j].1);
    }

    /// Entry `(i, j)` comes before `(i2, j2)` in bucket order.
    closed spec fn before(i: int, j: int, i2: int, j2: int) -> bool {
        i < i2 || (i == i2 && j < j2)
    }

    /// `e` is an entry of `self` that comes before `(i, j)`.
    closed spec fn origin(&self, e: Entry, i: int, j: int) -> bool {
        exists|i2: int, j2: int|
            self.valid_pos(i2, j2) && Self::before(i2, j2, i, j) && #[trigger] self.buckets@[i2]@[j2] == e
    }

    /// Every entry of `nbs` is an entry of `self` that comes before `(i, j)`.
    closed spec fn from_prefix(&self, nbs: Seq<Vec<Entry>>, i: int, j: int) -> bool {
        forall|a: int, b: int|
            0 <= a < nbs.len() && 0 <= b < nbs[a]@.len() ==> #[trigger] self.origin(nbs[a]@[b], i, j)
    }

    /// Every entry of `self` before `(i, j)` sits in `nbs`, in the bucket
    /// its hash selects.
    closed spec fn prefix_in<T: KeyOps>(&self, nbs: Seq<Vec<Entry>>, i: int, j: int) -> bool {
        forall|i2: int, j2: int|
            self.valid_pos(i2, j2) && Self::before(i2, j2, i, j) ==> #[trigger] Self::holds(
                nbs,
                slot(T::spec_hash(self.buckets@[i2]@[j2].0), nbs.len()),
                self.buckets@[i2]@[j2],
            )
    }

    /// Bucket `a` of `nbs` holds `e`.
    closed spec fn holds(nbs: Seq<Vec<Entry>>, a: int, e: Entry) -> bool {
        exists|b: int| 0 <= b < nbs[a]@.len() && #[trigger] nbs[a]@[b] == e
    }

    proof fn lemma_step_placed<T: KeyOps>(prev: Seq<Vec<Entry>>, cur: Seq<Vec<Entry>>, a: int, e: Entry)
        requires
            0 <= a < prev.len(),
            a == slot(T::spec_hash(e.0), prev.len()),
            cur.len() == prev.len(),
            cur[a]@ == prev[a]@.push(e),
            forall|a2: int| 0 <= a2 < prev.len() && a2 != a ==> cur[a2] == prev[a2],
            Self::placed::<T>(prev),
        ensures
            Self::placed::<T>(cur),
    {
        let last = prev[a]@.len() as int;
        assert forall|a2: int, b: int|
            0 <= a2 < cur.len() && 0 <= b < cur[a2]@.len() implies slot(
            T::spec_hash(#[trigger] cur[a2]@[b].0),
            cur.len(),
        ) == a2 by {
            if a2 != a {
                assert(cur[a2] == prev[a2]);
                assert(prev[a2]@[b] == cur[a2]@[b]);
            } else if b < last {
                assert(cur[a2]@[b] == prev[a2]@[b]);
            }
        }
    }

    proof fn lemma_step_unique<T: KeyOps>(&self, prev: Seq<Vec<Entry>>, cur: Seq<Vec<Entry>>, i: int, j: int, a: int)
        requires
            self.wf::<T>(),
            self.valid_pos(i, j),
            0 <= a < prev.len(),
            cur.len() == prev.len(),
            cur[a]@ == prev[a]@.push(self.buckets@[i]@[j]),
            forall|a2: int| 0 <= a2 < prev.len() && a2 != a ==> cur[a2] == prev[a2],
            Self::bucket_unique::<T>(prev),
            self.from_prefix(prev, i, j),
        ensures
            Self::bucket_unique::<T>(cur),
    {
        let e = self.buckets@[i]@[j];
        let last = prev[a]@.len() as int;
        assert forall|a2: int, b1: int, b2: int|
            0 <= a2 < cur.len() && 0 <= b1 < cur[a2]@.len() && 0 <= b2 < cur[a2]@.len() && b1 != b2
            implies !T::spec_eq(#[trigger] cur[a2]@[b1].0, #[trigger] cur[a2]@[b2].0) by {
            if a2 != a {
                assert(cur[a2] == prev[a2]);
                assert(prev[a2]@[b1] == cur[a2]@[b1]);
                assert(prev[a2]@[b2] == cur[a2]@[b2]);
            } else if b1 < last && b2 < last {
                assert(cur[a2]@[b1] == prev[a2]@[b1]);
                assert(cur[a2]@[b2] == prev[a2]@[b2]);
            } else {
                let ob = if b1 == last { b2 } else { b1 };
                assert(cur[a2]@[ob] == prev[a2]@[ob]);
                let x = prev[a2]@[ob];
                assert(self.origin(prev[a2]@[ob], i, j));
                let (i2, j2) = choose|i2: int, j2: int|
                    self.valid_pos(i2, j2) && Self::before(i2, j2, i, j) && #[trigger] self.buckets@[i2]@[j2]
                        == #[trigger] prev[a2]@[ob];
                T::lemma_key_laws(x.0, e.0, e.0);
                T::lemma_key_laws(e.0, x.0, x.0);
                if T::spec_eq(x.0, e.0) {
                    self.lemma_same_key_same_pos::<T>(i2, j2, i, j);
                }
            }
        }
    }

    proof fn lemma_step_cover<T: KeyOps>(&self, prev: Seq<Vec<Entry>>, cur: Seq<Vec<Entry>>, i: int, j: int, a: int)
        requires
            self.valid_pos(i, j),
            0 <= a < prev.len(),
            prev.len() <= usize::MAX,
            a == slot(T::spec_hash(self.buckets@[i]@[j].0), prev.len()),
            cur.len() == prev.len(),
            cur[a]@ == prev[a]@.push(self.buckets@[i]@[j]),
            forall|a2: int| 0 <= a2 < prev.len() && a2 != a ==> cur[a2] == prev[a2],
            self.from_prefix(prev, i, j),
            self.prefix_in::<T>(prev, i, j),
        ensures
            self.from_prefix(cur, i, j + 1),
            self.prefix_in::<T>(cur, i, j + 1),
    {
        let e = self.buckets@[i]@[j];
        let last = prev[a]@.len() as int;
        assert forall|a2: int, b: int| 0 <= a2 < cur.len() && 0 <= b < cur[a2]@.len() implies #[trigger] self.origin(
            cur[a2]@[b],
            i,
            j + 1,
        ) by {
            if a2 != a || b < last {
                if a2 != a {
                    assert(cur[a2] == prev[a2]);
                }
                assert(cur[a2]@[b] == prev[a2]@[b]);
                assert(self.origin(prev[a2]@[b], i, j));
                let (i2, j2) = choose|i2: int, j2: int|
                    self.valid_pos(i2, j2) && Self::before(i2, j2, i, j) && #[trigger] self.buckets@[i2]@[j2]
                        == prev[a2]@[b];
                assert(Self::before(i2, j2, i, j + 1));
            } else {
                assert(cur[a2]@[b] == e);
                assert(Self::before(i, j, i, j + 1));
            }
        }
        assert forall|i2: int, j2: int| self.valid_pos(i2, j2) && Self::before(i2, j2, i, j + 1) implies #[trigger] Self::holds(
            cur,
            slot(T::spec_hash(self.buckets@[i2]@[j2].0), cur.len()),
            self.buckets@[i2]@[j2],
        ) by {
            let s2 = slot(T::spec_hash(self.buckets@[i2]@[j2].0), cur.len());
            lemma_slot_bound(T::spec_hash(self.buckets@[i2]@[j2].0), cur.len());
            if i2 == i && j2 == j {
                assert(cur[a]@[last] == e);
            } else {
                assert(Self::before(i2, j2, i, j));
                assert(Self::holds(prev, s2, self.buckets@[i2]@[j2]));
                let b = choose|b: int| 0 <= b < prev[s2]@.len() && #[trigger] prev[s2]@[b] == self.buckets@[i2]@[j2];
                if s2 != a {
                    assert(cur[s2] == prev[s2]);
                }
                assert(cur[s2]@[b] == prev[s2]@[b]);
            }
        }
    }

    proof fn lemma_next_bucket<T: KeyOps>(&self, nbs: Seq<Vec<Entry>>, i: int)
        requires
            0 <= i < self.buckets@.len(),
            self.from_prefix(nbs, i, self.buckets@[i]@.len() as int),
            self.prefix_in::<T>(nbs, i, self.buckets@[i]@.len() as int),
        ensures
            self.from_prefix(nbs, i + 1, 0),
            self.prefix_in::<T>(nbs, i + 1, 0),
    {
        let m = self.buckets@[i]@.len() as int;
        assert forall|a: int, b: int|
            0 <= a < nbs.len() && 0 <= b < nbs[a]@.len() implies #[trigger] self.origin(nbs[a]@[b], i + 1, 0) by {
            assert(self.origin(nbs[a]@[b], i, m));
            let (i2, j2) = choose|i2: int, j2: int|
                self.valid_pos(i2, j2) && Self::before(i2, j2, i, m) && #[trigger] self.buckets@[i2]@[j2]
                    == nbs[a]@[b];
            assert(Self::before(i2, j2, i + 1, 0));
        }
        assert(self.from_prefix(nbs, i + 1, 0));
        assert forall|i2: int, j2: int| self.valid_pos(i2, j2) && Self::before(i2, j2, i + 1, 0) implies #[trigger] Self::holds(
            nbs,
            slot(T::spec_hash(self.buckets@[i2]@[j2].0), nbs.len()),
            self.buckets@[i2]@[j2],
        ) by {
            assert(Self::before(i2, j2, i, m));
        }
    }

    proof fn lemma_resize_done<T: KeyOps>(old_map: ObjectMap, new_map: ObjectMap)
        requires
            old_map.wf::<T>(),
            new_map.len == old_map.len,
            new_map.buckets@.len() > 0,
            new_map.buckets@.len() <= usize::MAX,
            Self::placed::<T>(new_map.buckets@),
            Self::bucket_unique::<T>(new_map.buckets@),
            old_map.from_prefix(new_map.buckets@, old_map.buckets@.len() as int, 0),
            old_map.prefix_in::<T>(new_map.buckets@, old_map.buckets@.len() as int, 0),
            total_len(new_map.bucket_seqs()) == total_len(old_map.bucket_seqs()),
        ensures
            new_map.wf::<T>(),
            new_map@ == old_map@,
    {
        let nb = old_map.buckets@.len() as int;
        assert(new_map.wf::<T>());
        old_map.lemma_view_facts::<T>();
        new_map.lemma_view_facts::<T>();
        assert forall|k: ObjectRef| #[trigger] new_map@.dom().contains(k) == old_map@.dom().contains(k) by {
            if new_map.has_key(k) {
                let (a, b) = choose|a: int, b: int| new_map.valid_pos(a, b) && #[trigger] new_map.buckets@[a]@[b].0 == k;
                assert(old_map.origin(new_map.buckets@[a]@[b], nb, 0));
                let (i2, j2) = choose|i2: int, j2: int|
                    old_map.valid_pos(i2, j2) && Self::before(i2, j2, nb, 0) && #[trigger] old_map.buckets@[i2]@[j2]
                        == new_map.buckets@[a]@[b];
                assert(old_map.buckets@[i2]@[j2].0 == k);
                assert(old_map.has_key(k));
            }
            if old_map.has_key(k) {
                let (i2, j2) = choose|i2: int, j2: int| old_map.valid_pos(i2, j2) && #[trigger] old_map.buckets@[i2]@[j2].0 == k;
                assert(Self::before(i2, j2, nb, 0));
                let s2 = slot(T::spec_hash(old_map.buckets@[i2]@[j2].0), new_map.buckets@.len());
                lemma_slot_bound(T::spec_hash(old_map.buckets@[i2]@[j2].0), new_map.buckets@.len());
                assert(Self::holds(new_map.buckets@, s2, old_map.buckets@[i2]@[j2]));
                let b = choose|b: int| 0 <= b < new_map.buckets@[s2]@.len()
                    && #[trigger] new_map.buckets@[s2]@[b] == old_map.buckets@[i2]@[j2];
                assert(new_map.buckets@[s2]@[b].0 == k);
                assert(new_map.has_key(k));
            }
        }
        assert forall|k: ObjectRef| new_map@.dom().contains(k) implies #[trigger] new_map@[k] == old_map@[k] by {
            let (a, b) = choose|a: int, b: int| new_map.valid_pos(a, b) && #[trigger] new_map.buckets@[a]@[b].0 == k;
            assert(old_map.origin(new_map.buckets@[a]@[b], nb, 0));
            let (i2, j2) = choose|i2: int, j2: int|
                old_map.valid_pos(i2, j2) && Self::before(i2, j2, nb, 0) && #[trigger] old_map.buckets@[i2]@[j2]
                    == new_map.buckets@[a]@[b];
            assert(new_map@[k] == new_map.buckets@[a]@[b].1);
            assert(old_map@[k] == old_map.buckets@[i2]@[j2].1);
        }
        assert(new_map@ =~= old_map@);
    }

    /// Doubles the number of buckets and places every entry anew.
    fn resize<T: KeyOps>(&mut self, thread: &T) -> (r: Result<(), VMError>)
        requires
            old(self).wf::<T>(),
            old(self).buckets@.len() * 2 <= usize::MAX,
        ensures
            r is Ok ==> {
                &&& final(self).wf::<T>()
                &&& final(self)@ == old(self)@
                &&& final(self).spec_len() == old(self).spec_len()
                &&& final(self).bucket_count() == 2 * old(self).bucket_count()
            },
            r is Err ==> *final(self) == *old(self),
            r matches Err(e) ==> exists|k: ObjectRef|
                old(self)@.dom().contains(k) && #[trigger] T::hash_result(k) == Err::<i64, VMError>(e),
            (forall|k: ObjectRef| old(self)@.dom().contains(k) ==> #[trigger] T::hash_result(k) is Ok) ==> r is Ok,
            r matches Err(e) ==> first_key_hash_error::<T>(old(self).entries()) == Some(e),
            first_key_hash_error::<T>(old(self).entries()) is None <==> r is Ok,
            T::infallible() ==> r is Ok,
    {
        proof {
            self.lemma_view_facts::<T>();
        }
        let nb = self.buckets.len();
        let new_capacity = nb * 2;
        let mut new_buckets: Vec<Vec<Entry>> = Vec::new();
        let mut n: usize = 0;
        while n < new_capacity
            invariant
                n <= new_capacity,
                new_buckets@.len() == n,
                forall|a: int| 0 <= a < n ==> #[trigger] new_buckets@[a]@.len() == 0,
            decreases new_capacity - n,
        {
            new_buckets.push(Vec::new());
            n = n + 1;
        }
        proof {
            lemma_total_len_all_empty(seqs_of(new_buckets@));
            assert(self.bucket_seqs().take(0) =~= Seq::<Seq<Entry>>::empty());
        }
        let mut i: usize = 0;
        while i < nb
            invariant
                self.wf::<T>(),
                nb == self.buckets@.len(),
                new_capacity == 2 * nb,
                i <= nb,
                new_buckets@.len() == new_capacity,
                Self::placed::<T>(new_buckets@),
                Self::bucket_unique::<T>(new_buckets@),
                self.from_prefix(new_buckets@, i as int, 0),
                self.prefix_in::<T>(new_buckets@, i as int, 0),
                total_len(seqs_of(new_buckets@)) == total_len(self.bucket_seqs().take(i as int)),
                *self == *old(self),
                forall|i2: int, j2: int|
                    self.valid_pos(i2, j2) ==> #[trigger] self@.dom().contains(self.buckets@[i2]@[j2].0),
                first_key_hash_error::<T>(self.entries()) == first_key_hash_error::<T>(
                    rest_of(self.bucket_seqs(), i as int, 0),
                ),
            decreases nb - i,
        {
            let bucket = &self.buckets[i];
            let m = bucket.len();
            let mut j: usize = 0;
            while j < m
                invariant
                    self.wf::<T>(),
                    nb == self.buckets@.len(),
                    new_capacity == 2 * nb,
                    i < nb,
                    bucket@ == self.buckets@[i as int]@,
                    m == bucket@.len(),
                    j <= m,
                    new_buckets@.len() == new_capacity,
                    Self::placed::<T>(new_buckets@),
                    Self::bucket_unique::<T>(new_buckets@),
                    self.from_prefix(new_buckets@, i as int, j as int),
                    self.prefix_in::<T>(new_buckets@, i as int, j as int),
                    total_len(seqs_of(new_buckets@)) == total_len(self.bucket_seqs().take(i as int)) + j,
                    *self == *old(self),
                    forall|i2: int, j2: int|
                        self.valid_pos(i2, j2) ==> #[trigger] self@.dom().contains(self.buckets@[i2]@[j2].0),
                    first_key_hash_error::<T>(self.entries()) == first_key_hash_error::<T>(
                        rest_of(self.bucket_seqs(), i as int, j as int),
                    ),
                decreases m - j,
            {
                let (key, value) = bucket[j];
                proof {
                    assert(self.valid_pos(i as int, j as int));
                    assert(self@.dom().contains(self.buckets@[i as int]@[j as int].0));
                    assert(self.bucket_seqs()[i as int] == self.buckets@[i as int]@);
                    lemma_rest_step(self.bucket_seqs(), i as int, j as int);
                }
                let hash = match self.hash_key(thread, key) {
                    Ok(h) => h,
                    Err(e) => return Err(e),
                };
                let a = (hash as usize) % new_capacity;
                let ghost prev = new_buckets@;
                new_buckets[a].push((key, value));
                proof {
                    let cur = new_buckets@;
                    assert(cur[a as int]@ == prev[a as int]@.push(self.buckets@[i as int]@[j as int]));
                    Self::lemma_step_placed::<T>(prev, cur, a as int, (key, value));
                    self.lemma_step_unique::<T>(prev, cur, i as int, j as int, a as int);
                    self.lemma_step_cover::<T>(prev, cur, i as int, j as int, a as int);
                    lemma_total_len_update(seqs_of(prev), a as int, cur[a as int]@);
                    assert(seqs_of(cur) =~= seqs_of(prev).update(a as int, cur[a as int]@));
                }
                j = j + 1;
            }
            proof {
                assert(self.bucket_seqs()[i as int] == self.buckets@[i as int]@);
                lemma_rest_step(self.bucket_seqs(), i as int, m as int);
                self.lemma_next_bucket::<T>(new_buckets@, i as int);
                let bs = self.bucket_seqs();
                assert(bs.take(i + 1).drop_last() =~= bs.take(i as int));
                assert(bs.take(i + 1).last() == bs[i as int]);
            }
            i = i + 1;
        }
        let ghost old_map = *self;
        proof {
            assert(rest_of(self.bucket_seqs(), nb as int, 0) =~= Seq::<Entry>::empty());
        }
        self.buckets = new_buckets;
        proof {
            assert(old_map.bucket_seqs().take(nb as int) =~= old_map.bucket_seqs());
            assert(self.bucket_seqs() =~= seqs_of(new_buckets@));
            Self::lemma_resize_done::<T>(old_map, *self);
        }
        Ok(())
    }

    proof fn lemma_set_value<T: KeyOps>(old_map: ObjectMap, new_map: ObjectMap, i: int, j: int, v: ObjectRef)
        requires
            old_map.wf::<T>(),
            old_map.valid_pos(i, j),
            new_map.len == old_map.len,
            new_map.buckets@.len() == old_map.buckets@.len(),
            new_map.buckets@[i]@ == old_map.buckets@[i]@.update(j, (old_map.buckets@[i]@[j].0, v)),
            forall|i2: int| 0 <= i2 < old_map.buckets@.len() && i2 != i ==> new_map.buckets@[i2] == old_map.buckets@[i2],
        ensures
            new_map.wf::<T>(),
            new_map@ == old_map@.insert(old_map.buckets@[i]@[j].0, v),
    {
        let k = old_map.buckets@[i]@[j].0;
        assert forall|a: int, b: int| new_map.valid_pos(a, b) implies #[trigger] new_map.buckets@[a]@[b].0
            == old_map.buckets@[a]@[b].0 && old_map.valid_pos(a, b) by {
            if a != i {
                assert(new_map.buckets@[a] == old_map.buckets@[a]);
            }
        }
        assert forall|a: int, b: int| old_map.valid_pos(a, b) implies new_map.valid_pos(a, b) by {
            if a != i {
                assert(new_map.buckets@[a] == old_map.buckets@[a]);
            }
        }
        assert(new_map.bucket_seqs() =~= old_map.bucket_seqs().update(i, new_map.buckets@[i]@));
        lemma_total_len_update(old_map.bucket_seqs(), i, new_map.buckets@[i]@);
        assert(new_map.wf::<T>());
        old_map.lemma_view_facts::<T>();
        new_map.lemma_view_facts::<T>();
        assert forall|q: ObjectRef| #[trigger] new_map@.dom().contains(q) == old_map@.insert(k, v).dom().contains(q) by {
            if new_map.has_key(q) {
                let (a, b) = choose|a: int, b: int| new_map.valid_pos(a, b) && #[trigger] new_map.buckets@[a]@[b].0 == q;
                assert(old_map.buckets@[a]@[b].0 == q);
            }
            if old_map.has_key(q) {
                let (a, b) = choose|a: int, b: int| old_map.valid_pos(a, b) && #[trigger] old_map.buckets@[a]@[b].0 == q;
                assert(new_map.buckets@[a]@[b].0 == q);
            }
            if q == k {
                assert(new_map.buckets@[i]@[j].0 == k);
            }
        }
        assert forall|q: ObjectRef| new_map@.dom().contains(q) implies #[trigger] new_map@[q] == old_map@.insert(k, v)[q] by {
            let (a, b) = choose|a: int, b: int| new_map.valid_pos(a, b) && #[trigger] new_map.buckets@[a]@[b].0 == q;
            assert(new_map@[q] == new_map.buckets@[a]@[b].1);
            if a == i && b == j {
            } else {
                if a != i {
                    assert(new_map.buckets@[a] == old_map.buckets@[a]);
                }
                assert(old_map@[q] == old_map.buckets@[a]@[b].1);
                if q == k {
                    T::lemma_key_laws(k, k, k);
                    old_map.lemma_same_key_same_pos::<T>(a, b, i, j);
                }
            }
        }
        assert(new_map@ =~= old_map@.insert(k, v));
    }

    proof fn lemma_push<T: KeyOps>(old_map: ObjectMap, new_map: ObjectMap, i: int, e: Entry)
        requires
            old_map.wf::<T>(),
            0 <= i < old_map.buckets@.len(),
            new_map.len == old_map.len + 1,
            new_map.buckets@.len() == old_map.buckets@.len(),
            new_map.buckets@[i]@ == old_map.buckets@[i]@.push(e),
            forall|i2: int| 0 <= i2 < old_map.buckets@.len() && i2 != i ==> new_map.buckets@[i2] == old_map.buckets@[i2],
            slot(T::spec_hash(e.0), old_map.buckets@.len()) == i,
            forall|j: int| 0 <= j < old_map.buckets@[i]@.len() ==> !T::spec_eq(#[trigger] old_map.buckets@[i]@[j].0, e.0),
        ensures
            new_map.wf::<T>(),
            new_map@ == old_map@.insert(e.0, e.1),
            !old_map@.dom().contains(e.0),
    {
        let last = old_map.buckets@[i]@.len() as int;
        assert forall|a: int, b: int| new_map.valid_pos(a, b) && !(a == i && b == last) implies #[trigger] new_map.buckets@[a]@[b]
            == old_map.buckets@[a]@[b] && old_map.valid_pos(a, b) by {
            if a != i {
                assert(new_map.buckets@[a] == old_map.buckets@[a]);
            }
        }
        assert forall|a: int, b: int| old_map.valid_pos(a, b) implies new_map.valid_pos(a, b) by {
            if a != i {
                assert(new_map.buckets@[a] == old_map.buckets@[a]);
            }
        }
        assert forall|a: int, b1: int, b2: int|
            new_map.valid_pos(a, b1) && new_map.valid_pos(a, b2) && b1 != b2 implies !T::spec_eq(
            #[trigger] new_map.buckets@[a]@[b1].0,
            #[trigger] new_map.buckets@[a]@[b2].0,
        ) by {
            if a == i && (b1 == last || b2 == last) {
                let ob = if b1 == last { b2 } else { b1 };
                let x = old_map.buckets@[i]@[ob].0;
                T::lemma_key_laws(e.0, x, x);
                assert(!T::spec_eq(x, e.0));
            }
        }
        assert(new_map.bucket_seqs() =~= old_map.bucket_seqs().update(i, new_map.buckets@[i]@));
        lemma_total_len_update(old_map.bucket_seqs(), i, new_map.buckets@[i]@);
        assert(new_map.wf::<T>());
        old_map.lemma_view_facts::<T>();
        new_map.lemma_view_facts::<T>();
        if old_map.has_key(e.0) {
            let (a, b) = choose|a: int, b: int| old_map.valid_pos(a, b) && #[trigger] old_map.buckets@[a]@[b].0 == e.0;
            T::lemma_key_laws(e.0, e.0, e.0);
            assert(old_map.buckets@[i]@[b].0 == e.0);
        }
        assert forall|q: ObjectRef| #[trigger] new_map@.dom().contains(q) == old_map@.insert(e.0, e.1).dom().contains(q) by {
            if new_map.has_key(q) {
                let (a, b) = choose|a: int, b: int| new_map.valid_pos(a, b) && #[trigger] new_map.buckets@[a]@[b].0 == q;
                if !(a == i && b == last) {
                    assert(old_map.buckets@[a]@[b].0 == q);
                }
            }
            if old_map.has_key(q) {
                let (a, b) = choose|a: int, b: int| old_map.valid_pos(a, b) && #[trigger] old_map.buckets@[a]@[b].0 == q;
                assert(new_map.buckets@[a]@[b].0 == q);
            }
            if q == e.0 {
                assert(new_map.buckets@[i]@[last].0 == q);
            }
        }
        assert forall|q: ObjectRef| new_map@.dom().contains(q) implies #[trigger] new_map@[q] == old_map@.insert(e.0, e.1)[q] by {
            let (a, b) = choose|a: int, b: int| new_map.valid_pos(a, b) && #[trigger] new_map.buckets@[a]@[b].0 == q;
            assert(new_map@[q] == new_map.buckets@[a]@[b].1);
            if !(a == i && b == last) {
                assert(old_map@[q] == old_map.buckets@[a]@[b].1);
            }
        }
        assert(new_map@ =~= old_map@.insert(e.0, e.1));
    }

    /// Stores `value` under `key`. When a key equivalent to `key` is already
    /// stored, it keeps its place, takes the new value, and the old value is
    /// returned. The table first doubles its buckets when more than 3/4 of an
    /// entry per bucket is stored; growing hashes the stored keys in bucket
    /// order. Then `key` is hashed and compared with the keys of its bucket
    /// in order, as `get` does. The first hash or comparison that fails ends
    /// the call with its error and leaves the contents as they were.
    pub fn insert<T: KeyOps>(&mut self, thread: &T, key: ObjectRef, value: ObjectRef) -> (r: Result<
        Option<ObjectRef>,
        VMError,
    >)
        requires
            old(self).wf::<T>(),
            old(self).spec_len() < usize::MAX / 4,
        ensures
            final(self).wf::<T>(),
            r matches Ok(o) ==> {
                &&& o == lookup::<T>(old(self)@, key)
                &&& final(self)@ == insert_entry::<T>(old(self)@, key, value)
                &&& final(self).spec_len() == if o is Some {
                    old(self).spec_len()
                } else {
                    old(self).spec_len() + 1
                }
            },
            r is Err ==> final(self)@ == old(self)@ && final(self).spec_len() == old(self).spec_len(),
            r matches Err(e) ==> insert_error::<T>(old(self)@, key, e),
            r matches Err(e) ==> final(self).get_result::<T>(key) == Err::<Option<ObjectRef>, VMError>(e) || (
            old(self).spec_len() * 4 > old(self).bucket_count() * 3 && first_key_hash_error::<T>(old(self).entries())
                == Some(e)),
            old(self).spec_len() * 4 > old(self).bucket_count() * 3 ==> (first_key_hash_error::<T>(
                old(self).entries(),
            ) matches Some(e) ==> r == Err::<Option<ObjectRef>, VMError>(e)),
            old(self).spec_len() * 4 <= old(self).bucket_count() * 3 ==> (r matches Err(e) ==> old(
                self,
            ).get_result::<T>(key) == Err::<Option<ObjectRef>, VMError>(e)),
            insert_calls_ok::<T>(old(self)@, key) ==> r is Ok,
            T::infallible() ==> r is Ok,
    {
        let grows = (self.len as u128) * 4 > (self.buckets.len() as u128) * 3;
        proof {
            assert(grows == (old(self).spec_len() * 4 > old(self).bucket_count() * 3));
        }
        if grows {
            match self.resize(thread) {
                Ok(()) => {},
                Err(e) => return Err(e),
            }
        }
        let idx = match self.bucket_index(thread, key) {
            Ok(i) => i,
            Err(e) => return Err(e),
        };
        let n = self.buckets[idx].len();
        let mut pos: usize = 0;
        proof {
            self.lemma_view_facts::<T>();
        }
        while pos < n
            invariant
                self.wf::<T>(),
                self@ == old(self)@,
                self.spec_len() == old(self).spec_len(),
                self.spec_len() < usize::MAX / 4,
                old(self).spec_len() * 4 <= old(self).bucket_count() * 3 ==> *self == *old(self),
                old(self).spec_len() * 4 > old(self).bucket_count() * 3 ==> first_key_hash_error::<T>(
                    old(self).entries(),
                ) is None,
                T::hash_result(key) == Ok::<i64, VMError>(T::spec_hash(key)),
                idx == slot(T::spec_hash(key), self.buckets@.len()),
                0 <= idx < self.buckets@.len(),
                n == self.buckets@[idx as int]@.len(),
                pos <= n,
                forall|j2: int| 0 <= j2 < pos ==> !T::spec_eq(#[trigger] self.buckets@[idx as int]@[j2].0, key),
                self.get_result::<T>(key) == scan_bucket::<T>(self.buckets@[idx as int]@, key, pos as int),
                forall|i: int, j2: int|
                    self.valid_pos(i, j2) ==> #[trigger] self@.dom().contains(self.buckets@[i]@[j2].0),
            decreases n - pos,
        {
            let (k, v) = self.buckets[idx][pos];
            proof {
                assert(self.valid_pos(idx as int, pos as int));
                assert(self@.dom().contains(self.buckets@[idx as int]@[pos as int].0));
            }
            let equal = match self.keys_equal(thread, k, key) {
                Ok(e) => e,
                Err(e) => return Err(e),
            };
            if equal {
                proof {
                    self.lemma_found::<T>(key, idx as int, pos as int);
                }
                let ghost before_map = *self;
                self.buckets[idx].set(pos, (k, value));
                proof {
                    Self::lemma_set_value::<T>(before_map, *self, idx as int, pos as int, value);
                }
                return Ok(Some(v));
            }
            pos = pos + 1;
        }
        proof {
            self.lemma_find_in_bucket::<T>(key);
            if find_key::<T>(self@, key) is Some {
                let k2 = find_key::<T>(self@, key)->0;
                let j2 = choose|j2: int|
                    self.valid_pos(idx as int, j2) && #[trigger] self.buckets@[idx as int]@[j2].0 == k2;
                assert(T::spec_eq(k2, key));
            }
        }
        let ghost before_map = *self;
        self.buckets[idx].push((key, value));
        self.len = self.len + 1;
        proof {
            Self::lemma_push::<T>(before_map, *self, idx as int, (key, value));
        }
        Ok(None)
    }

    proof fn lemma_swap_remove<T: KeyOps>(old_map: ObjectMap, new_map: ObjectMap, i: int, j: int)
        requires
            old_map.wf::<T>(),
            old_map.valid_pos(i, j),
            new_map.len + 1 == old_map.len,
            new_map.buckets@.len() == old_map.buckets@.len(),
            new_map.buckets@[i]@ == old_map.buckets@[i]@.update(j, old_map.buckets@[i]@.last()).drop_last(),
            forall|i2: int| 0 <= i2 < old_map.buckets@.len() && i2 != i ==> new_map.buckets@[i2] == old_map.buckets@[i2],
        ensures
            new_map.wf::<T>(),
            new_map@ == old_map@.remove(old_map.buckets@[i]@[j].0),
    {
        let k = old_map.buckets@[i]@[j].0;
        let last = old_map.buckets@[i]@.len() - 1;
        // position in the old table of each entry of the new one
        assert forall|a: int, b: int| new_map.valid_pos(a, b) implies old_map.valid_pos(a, if a == i && b == j { last } else { b })
            && #[trigger] new_map.buckets@[a]@[b] == old_map.buckets@[a]@[if a == i && b == j { last } else { b }] by {
            if a != i {
                assert(new_map.buckets@[a] == old_map.buckets@[a]);
            }
        }
        assert forall|a: int, b1: int, b2: int|
            new_map.valid_pos(a, b1) && new_map.valid_pos(a, b2) && b1 != b2 implies !T::spec_eq(
            #[trigger] new_map.buckets@[a]@[b1].0,
            #[trigger] new_map.buckets@[a]@[b2].0,
        ) by {
            let c1 = if a == i && b1 == j { last } else { b1 };
            let c2 = if a == i && b2 == j { last } else { b2 };
            assert(new_map.buckets@[a]@[b1] == old_map.buckets@[a]@[c1]);
            assert(new_map.buckets@[a]@[b2] == old_map.buckets@[a]@[c2]);
        }
        assert(new_map.bucket_seqs() =~= old_map.bucket_seqs().update(i, new_map.buckets@[i]@));
        lemma_total_len_update(old_map.bucket_seqs(), i, new_map.buckets@[i]@);
        assert(new_map.wf::<T>());
        old_map.lemma_view_facts::<T>();
        new_map.lemma_view_facts::<T>();
        T::lemma_key_laws(k, k, k);
        assert forall|q: ObjectRef| #[trigger] new_map@.dom().contains(q) == old_map@.remove(k).dom().contains(q) by {
            if new_map.has_key(q) {
                let (a, b) = choose|a: int, b: int| new_map.valid_pos(a, b) && #[trigger] new_map.buckets@[a]@[b].0 == q;
                let c = if a == i && b == j { last } else { b };
                assert(new_map.buckets@[a]@[b] == old_map.buckets@[a]@[c]);
                assert(old_map.buckets@[a]@[c].0 == q);
                if q == k {
                    old_map.lemma_same_key_same_pos::<T>(a, c, i, j);
                }
            }
            if old_map.has_key(q) && q != k {
                let (a, b) = choose|a: int, b: int| old_map.valid_pos(a, b) && #[trigger] old_map.buckets@[a]@[b].0 == q;
                if a == i && b == last {
                    assert(new_map.buckets@[i]@[j].0 == q);
                } else {
                    assert(!(a == i && b == j));
                    if a != i {
                        assert(new_map.buckets@[a] == old_map.buckets@[a]);
                    }
                    assert(new_map.buckets@[a]@[b].0 == q);
                }
            }
        }
        assert forall|q: ObjectRef| new_map@.dom().contains(q) implies #[trigger] new_map@[q] == old_map@.remove(k)[q] by {
            let (a, b) = choose|a: int, b: int| new_map.valid_pos(a, b) && #[trigger] new_map.buckets@[a]@[b].0 == q;
            let c = if a == i && b == j { last } else { b };
            assert(new_map.buckets@[a]@[b] == old_map.buckets@[a]@[c]);
            assert(new_map@[q] == new_map.buckets@[a]@[b].1);
            assert(old_map@[q] == old_map.buckets@[a]@[c].1);
        }
        assert(new_map@ =~= old_map@.remove(k));
    }

    /// Removes the entry whose key is equivalent to `key` and returns its
    /// value. A failing hash ends the call with its error; a key comparison
    /// that fails counts as "not equal".
    pub fn remove<T: KeyOps>(&mut self, thread: &T, key: ObjectRef) -> (r: Result<
        Option<ObjectRef>,
        VMError,
    >)
        requires
            old(self).wf::<T>(),
        ensures
            final(self).wf::<T>(),
            r matches Ok(Some(v)) ==> {
                &&& lookup::<T>(old(self)@, key) == Some(v)
                &&& final(self)@ == remove_entry::<T>(old(self)@, key)
                &&& final(self).spec_len() + 1 == old(self).spec_len()
            },
            r matches Ok(None) ==> {
                &&& final(self)@ == old(self)@
                &&& final(self).spec_len() == old(self).spec_len()
                &&& (lookup::<T>(old(self)@, key) is None || T::eq_result(
                    find_key::<T>(old(self)@, key)->0,
                    key,
                ) is Err)
            },
            r is Err ==> final(self)@ == old(self)@ && final(self).spec_len() == old(self).spec_len(),
            T::hash_result(key) matches Err(e) ==> r == Err::<Option<ObjectRef>, VMError>(e),
            T::hash_result(key) is Ok ==> r is Ok,
            T::infallible() ==> r is Ok,
    {
        let idx = match self.bucket_index(thread, key) {
            Ok(i) => i,
            Err(e) => return Err(e),
        };
        let n = self.buckets[idx].len();
        let mut pos: usize = 0;
        while pos < n
            invariant
                self.wf::<T>(),
                *self == *old(self),
                T::hash_result(key) == Ok::<i64, VMError>(T::spec_hash(key)),
                idx == slot(T::spec_hash(key), self.buckets@.len()),
                0 <= idx < self.buckets@.len(),
                n == self.buckets@[idx as int]@.len(),
                pos <= n,
                forall|j2: int|
                    0 <= j2 < pos ==> (T::eq_result(#[trigger] self.buckets@[idx as int]@[j2].0, key) is Err
                        || !T::spec_eq(self.buckets@[idx as int]@[j2].0, key)),
            decreases n - pos,
        {
            let k = self.buckets[idx][pos].0;
            let equal = match self.keys_equal(thread, k, key) {
                Ok(e) => e,
                Err(_) => false,
            };
            if equal {
                proof {
                    self.lemma_found::<T>(key, idx as int, pos as int);
                    lemma_total_len_ge(self.bucket_seqs(), idx as int);
                }
                let ghost before_map = *self;
                let (_, value) = self.buckets[idx].swap_remove(pos);
                self.len = self.len - 1;
                proof {
                    Self::lemma_swap_remove::<T>(before_map, *self, idx as int, pos as int);
                }
                return Ok(Some(value));
            }
            pos = pos + 1;
        }
        proof {
            self.lemma_find_in_bucket::<T>(key);
            if find_key::<T>(self@, key) is Some {
                let k2 = find_key::<T>(self@, key)->0;
                let j2 = choose|j2: int|
                    self.valid_pos(idx as int, j2) && #[trigger] self.buckets@[idx as int]@[j2].0 == k2;
                assert(T::spec_eq(k2, key));
                assert(T::eq_result(self.buckets@[idx as int]@[j2].0, key) is Err);
            }
        }
        Ok(None)
    }

    /// Inserts every pair of `iter`, in order. When inserting a pair fails,
    /// its error is returned and the pairs before it stay inserted.
    pub fn extend_from_iter<T: KeyOps>(&mut self, thread: &T, iter: Vec<Entry>) -> (r: Result<(), VMError>)
        requires
            old(self).wf::<T>(),
            old(self).spec_len() + iter@.len() < usize::MAX / 4,
        ensures
            final(self).wf::<T>(),
            r is Ok ==> final(self)@ == insert_all::<T>(old(self)@, iter@),
            r matches Err(e) ==> exists|n: int|
                0 <= n < iter@.len() && final(self)@ == insert_all::<T>(old(self)@, #[trigger] iter@.take(n))
                    && insert_error::<T>(final(self)@, iter@[n].0, e),
            (forall|n: int|
                0 <= n < iter@.len() ==> insert_calls_ok::<T>(
                    insert_all::<T>(old(self)@, #[trigger] iter@.take(n)),
                    iter@[n].0,
                )) ==> r is Ok,
            T::infallible() ==> r is Ok,
    {
        let n = iter.len();
        let mut i: usize = 0;
        proof {
            assert(iter@.take(0) =~= Seq::<Entry>::empty());
        }
        while i < n
            invariant
                n == iter@.len(),
                i <= n,
                self.wf::<T>(),
                self@ == insert_all::<T>(old(self)@, iter@.take(i as int)),
                self.spec_len() <= old(self).spec_len() + i,
                old(self).spec_len() + n < usize::MAX / 4,
            decreases n - i,
        {
            let (k, v) = iter[i];
            let ghost before = self@;
            proof {
                assert(iter@[i as int] == (k, v));
                let _ = iter@.take(i as int);
            }
            match self.insert(thread, k, v) {
                Ok(_) => {},
                Err(e) => {
                    assert(self@ == insert_all::<T>(old(self)@, iter@.take(i as int)));
                    assert(insert_error::<T>(self@, iter@[i as int].0, e));
                    return Err(e);
                },
            }
            proof {
                assert(iter@.take(i + 1).drop_last() =~= iter@.take(i as int));
                assert(iter@.take(i + 1).last() == (k, v));
            }
            i = i + 1;
        }
        proof {
            assert(iter@.take(n as int) =~= iter@);
        }
        Ok(())
    }

    /// Creates a table holding the pairs of `vec`, inserted in order; it
    /// starts with as many buckets as `vec` has pairs.
    pub fn from_vec<T: KeyOps>(thread: &T, vec: Vec<Entry>) -> (r: Result<ObjectMap, VMError>)
        requires
            vec@.len() < usize::MAX / 4,
        ensures
            r matches Ok(m) ==> m.wf::<T>() && m@ == insert_all::<T>(Map::empty(), vec@),
            r matches Err(e) ==> exists|n: int|
                0 <= n < vec@.len() && insert_error::<T>(
                    insert_all::<T>(Map::empty(), #[trigger] vec@.take(n)),
                    vec@[n].0,
                    e,
                ),
            (forall|n: int|
                0 <= n < vec@.len() ==> insert_calls_ok::<T>(
                    insert_all::<T>(Map::empty(), #[trigger] vec@.take(n)),
                    vec@[n].0,
                )) ==> r is Ok,
            T::infallible() ==> r is Ok,
    {
        let mut map = ObjectMap::with_capacity(vec.len());
        proof {
            map.lemma_fresh_wf::<T>();
        }
        match map.extend_from_iter(thread, vec) {
            Ok(()) => Ok(map),
            Err(e) => Err(e),
        }
    }

    /// Creates a table holding the pairs of `iter`, inserted in order; the
    /// number of buckets is taken from the size of `iter`.
    pub fn from_iter<T: KeyOps>(thread: &T, iter: Vec<Entry>) -> (r: Result<ObjectMap, VMError>)
        requires
            iter@.len() < usize::MAX / 4,
        ensures
            r matches Ok(m) ==> m.wf::<T>() && m@ == insert_all::<T>(Map::empty(), iter@),
            r matches Err(e) ==> exists|n: int|
                0 <= n < iter@.len() && insert_error::<T>(
                    insert_all::<T>(Map::empty(), #[trigger] iter@.take(n)),
                    iter@[n].0,
                    e,
                ),
            (forall|n: int|
                0 <= n < iter@.len() ==> insert_calls_ok::<T>(
                    insert_all::<T>(Map::empty(), #[trigger] iter@.take(n)),
                    iter@[n].0,
                )) ==> r is Ok,
            T::infallible() ==> r is Ok,
    {
        let capacity = iter.len();
        let mut map = ObjectMap::with_capacity(capacity);
        proof {
            map.lemma_fresh_wf::<T>();
        }
        match map.extend_from_iter(thread, iter) {
            Ok(()) => Ok(map),
            Err(e) => Err(e),
        }
    }

    proof fn lemma_rest_keys_nodup<T: KeyOps>(&self, i: int)
        requires
            self.wf::<T>(),
            0 <= i <= self.buckets@.len(),
        ensures
            keys_of(rest_of(self.bucket_seqs(), i, 0)).no_duplicates(),
        decreases self.buckets@.len() - i,
    {
        let bs = self.bucket_seqs();
        if i < bs.len() {
            self.lemma_rest_keys_nodup::<T>(i + 1);
            lemma_rest_members(bs, i + 1);
            let t = rest_of(bs, i + 1, 0);
            assert(rest_of(bs, i, 0) =~= bs[i] + t);
            let kr = keys_of(rest_of(bs, i, 0));
            assert forall|p1: int, p2: int| 0 <= p1 < kr.len() && 0 <= p2 < kr.len() && p1 != p2 implies kr[p1]
                != kr[p2] by {
                self.lemma_rest_keys_pair::<T>(i, p1, p2);
            }
        } else {
            assert(keys_of(rest_of(bs, i, 0)) =~= Seq::<ObjectRef>::empty());
        }
    }

    proof fn lemma_rest_keys_pair<T: KeyOps>(&self, i: int, p1: int, p2: int)
        requires
            self.wf::<T>(),
            0 <= i < self.buckets@.len(),
            keys_of(rest_of(self.bucket_seqs(), i + 1, 0)).no_duplicates(),
            forall|p: int| 0 <= p < rest_of(self.bucket_seqs(), i + 1, 0).len() ==> #[trigger] in_buckets_from(
                self.bucket_seqs(),
                i + 1,
                rest_of(self.bucket_seqs(), i + 1, 0)[p],
            ),
            rest_of(self.bucket_seqs(), i, 0) == self.bucket_seqs()[i] + rest_of(self.bucket_seqs(), i + 1, 0),
            0 <= p1 < rest_of(self.bucket_seqs(), i, 0).len(),
            0 <= p2 < rest_of(self.bucket_seqs(), i, 0).len(),
            p1 != p2,
        ensures
            rest_of(self.bucket_seqs(), i, 0)[p1].0 != rest_of(self.bucket_seqs(), i, 0)[p2].0,
    {
        let bs = self.bucket_seqs();
        let r = rest_of(bs, i, 0);
        let t = rest_of(bs, i + 1, 0);
        let n = bs[i].len() as int;
        T::lemma_key_laws(r[p1].0, r[p1].0, r[p1].0);
        if p1 < n && p2 < n {
            assert(r[p1] == self.buckets@[i]@[p1]);
            assert(r[p2] == self.buckets@[i]@[p2]);
        } else if p1 >= n && p2 >= n {
            assert(r[p1] == t[p1 - n]);
            assert(r[p2] == t[p2 - n]);
            assert(keys_of(t)[p1 - n] == t[p1 - n].0);
            assert(keys_of(t)[p2 - n] == t[p2 - n].0);
        } else {
            let (pa, pb) = if p1 < n { (p1, p2) } else { (p2, p1) };
            assert(r[pb] == t[pb - n]);
            assert(in_buckets_from(bs, i + 1, t[pb - n]));
            let (a, b) = choose|a: int, b: int| i + 1 <= a < bs.len() && 0 <= b < bs[a].len() && #[trigger] bs[a][b]
                == t[pb - n];
            assert(self.buckets@[a]@[b] == bs[a][b]);
            assert(self.buckets@[i]@[pa] == r[pa]);
            if r[pa].0 == r[pb].0 {
                self.lemma_same_key_same_pos::<T>(i, pa, a, b);
            }
        }
    }

    /// Iteration yields exactly the stored entries, each key once, and the
    /// number of entries is the number of stored keys.
    pub proof fn lemma_entries_are_contents<T: KeyOps>(&self)
        requires
            self.wf::<T>(),
        ensures
            self.entries().len() == self.spec_len(),
            keys_of(self.entries()).no_duplicates(),
            forall|p: int| 0 <= p < self.entries().len() ==> #[trigger] self@.dom().contains(self.entries()[p].0)
                && self@[self.entries()[p].0] == self.entries()[p].1,
            forall|k: ObjectRef| self@.dom().contains(k) ==> #[trigger] keys_of(self.entries()).contains(k),
            self@.dom().len() == self.spec_len(),
            keys_distinct::<T>(self@),
    {
        let bs = self.bucket_seqs();
        let es = self.entries();
        lemma_rest_total(bs);
        lemma_rest_members(bs, 0);
        self.lemma_rest_keys_nodup::<T>(0);
        self.lemma_view_facts::<T>();
        assert forall|p: int| 0 <= p < es.len() implies #[trigger] self@.dom().contains(es[p].0) && self@[es[p].0]
            == es[p].1 by {
            assert(in_buckets_from(bs, 0, es[p]));
            let (a, b) = choose|a: int, b: int| 0 <= a < bs.len() && 0 <= b < bs[a].len() && #[trigger] bs[a][b] == es[p];
            assert(self.buckets@[a]@[b] == bs[a][b]);
        }
        assert forall|k: ObjectRef| self@.dom().contains(k) implies #[trigger] keys_of(es).contains(k) by {
            let (a, b) = choose|a: int, b: int| self.valid_pos(a, b) && #[trigger] self.buckets@[a]@[b].0 == k;
            assert(bs[a][b] == self.buckets@[a]@[b]);
            assert(es.contains(bs[a][b]));
            let p = choose|p: int| 0 <= p < es.len() && es[p] == bs[a][b];
            assert(keys_of(es)[p] == k);
        }
        let ks = keys_of(es);
        assert(ks.to_set() =~= self@.dom()) by {
            assert forall|k: ObjectRef| ks.to_set().contains(k) <==> self@.dom().contains(k) by {
                if ks.to_set().contains(k) {
                    let p = choose|p: int| 0 <= p < ks.len() && ks[p] == k;
                    assert(self@.dom().contains(es[p].0));
                }
                if self@.dom().contains(k) {
                    assert(ks.contains(k));
                }
            }
        }
        ks.unique_seq_to_set();
    }

    /// Every entry in bucket order, as iteration yields them.
    pub closed spec fn entries(&self) -> Seq<Entry> {
        rest_of(self.bucket_seqs(), 0, 0)
    }

    /// The entries in bucket order, as iteration yields them.
    pub fn to_vec(&self) -> (r: Vec<Entry>)
        ensures
            r@ == self.entries(),
    {
        let mut it = self.iter();
        let mut out: Vec<Entry> = Vec::new();
        loop
            invariant
                it.wf(),
                out@ + it.rest() == self.entries(),
            decreases it.rest().len(),
        {
            let ghost before = it.rest();
            match it.next() {
                Some(e) => {
                    out.push(e);
                    proof {
                        assert(out@ + it.rest() =~= self.entries()) by {
                            assert(before == seq![e] + before.drop_first());
                        }
                    }
                },
                None => {
                    proof {
                        assert(out@ =~= self.entries());
                    }
                    return out;
                },
            }
        }
    }

    /// Iterates over the entries in bucket order.
    pub fn iter(&self) -> (r: Iter<'_>)
        ensures
            r.wf(),
            r.rest() == self.entries(),
    {
        Iter { buckets: &self.buckets, current_bucket: 0, current_index: 0 }
    }

    /// Iterates over the entries in bucket order; values can be replaced
    /// through the iterator.
    pub fn iter_mut(&self) -> (r: IterMut)
        ensures
            r.wf(self),
            r.rest(self) == self.entries(),
    {
        IterMut { current_bucket: 0, current_index: 0 }
    }

    /// Consumes the table into an iterator over its entries.
    pub fn into_iter(self) -> (r: IntoIter)
        ensures
            r.wf(),
            r.rest() == self.entries(),
    {
        IntoIter { buckets: self.buckets, current_bucket: 0, current_index: 0 }
    }

    /// Outcome of looking `key` up: its hash selects a bucket, whose keys
    /// are compared with `key` in order; the first comparison that fails, or
    /// a failing hash, gives the error.
    pub closed spec fn get_result<T: KeyOps>(&self, key: ObjectRef) -> Result<Option<ObjectRef>, VMError> {
        match T::hash_result(key) {
            Err(e) => Err(e),
            Ok(h) => scan_bucket::<T>(self.buckets@[slot(h, self.buckets@.len())]@, key, 0),
        }
    }

    /// Returns the value stored under a key equivalent to `key`. A hash or a
    /// comparison that fails ends the lookup with its error.
    pub fn get<T: KeyOps>(&self, thread: &T, key: ObjectRef) -> (r: Result<
        Option<ObjectRef>,
        VMError,
    >)
        requires
            self.wf::<T>(),
        ensures
            r == self.get_result::<T>(key),
            r matches Ok(v) ==> v == lookup::<T>(self@, key),
            r matches Err(e) ==> T::hash_result(key) == Err::<i64, VMError>(e) || exists|k: ObjectRef|
                self@.dom().contains(k) && #[trigger] T::eq_result(k, key) == Err::<bool, VMError>(e),
            T::hash_result(key) matches Err(e) ==> r == Err::<Option<ObjectRef>, VMError>(e),
            T::hash_result(key) is Ok && (forall|k: ObjectRef|
                self@.dom().contains(k) ==> #[trigger] T::eq_result(k, key) is Ok) ==> r is Ok,
            T::infallible() ==> r is Ok,
    {
        let idx = match self.bucket_index(thread, key) {
            Ok(i) => i,
            Err(e) => return Err(e),
        };
        let bucket = &self.buckets[idx];
        let n = bucket.len();
        let mut j: usize = 0;
        proof {
            self.lemma_view_facts::<T>();
        }
        while j < n
            invariant
                self.wf::<T>(),
                T::hash_result(key) == Ok::<i64, VMError>(T::spec_hash(key)),
                idx == slot(T::spec_hash(key), self.buckets@.len()),
                0 <= idx < self.buckets@.len(),
                bucket@ == self.buckets@[idx as int]@,
                n == bucket@.len(),
                j <= n,
                forall|j2: int| 0 <= j2 < j ==> !T::spec_eq(#[trigger] bucket@[j2].0, key),
                self.get_result::<T>(key) == scan_bucket::<T>(bucket@, key, j as int),
                forall|i: int, j2: int|
                    self.valid_pos(i, j2) ==> #[trigger] self@.dom().contains(self.buckets@[i]@[j2].0),
            decreases n - j,
        {
            let (k, v) = bucket[j];
            proof {
                assert(self.valid_pos(idx as int, j as int));
                assert(self@.dom().contains(self.buckets@[idx as int]@[j as int].0));
            }
            let equal = match self.keys_equal(thread, k, key) {
                Ok(e) => e,
                Err(e) => return Err(e),
            };
            if equal {
                proof {
                    self.lemma_found::<T>(key, idx as int, j as int);
                }
                return Ok(Some(v));
            }
            j = j + 1;
        }
        proof {
            self.lemma_find_in_bucket::<T>(key);
            if find_key::<T>(self@, key) is Some {
                let k2 = find_key::<T>(self@, key)->0;
                let j2 = choose|j2: int|
                    self.valid_pos(idx as int, j2) && #[trigger] self.buckets@[idx as int]@[j2].0
                        == k2;
                assert(T::spec_eq(k2, key));
                assert(bucket@[j2].0 == k2);
            }
        }
        Ok(None)
    }

    /// Whether some stored key is equivalent to `key`; fails as `get` does.
    pub fn contains_key<T: KeyOps>(&self, thread: &T, key: ObjectRef) -> (r: Result<bool, VMError>)
        requires
            self.wf::<T>(),
        ensures
            r == match self.get_result::<T>(key) {
                Ok(o) => Ok::<bool, VMError>(o is Some),
                Err(e) => Err(e),
            },
            r matches Ok(b) ==> b == (find_key::<T>(self@, key) is Some) && b == (lookup::<T>(self@, key) is Some),
            r matches Err(e) ==> T::hash_result(key) == Err::<i64, VMError>(e) || exists|k: ObjectRef|
                self@.dom().contains(k) && #[trigger] T::eq_result(k, key) == Err::<bool, VMError>(e),
            T::hash_result(key) matches Err(e) ==> r == Err::<bool, VMError>(e),
            T::hash_result(key) is Ok && (forall|k: ObjectRef|
                self@.dom().contains(k) ==> #[trigger] T::eq_result(k, key) is Ok) ==> r is Ok,
            T::infallible() ==> r is Ok,
    {
        match self.get(thread, key) {
            Ok(o) => Ok(o.is_some()),
            Err(e) => Err(e),
        }
    }

    /// Removes every entry; the number of buckets stays.
    pub fn clear(&mut self)
        ensures
            old(self).bucket_count() > 0 ==> final(self).fresh(),
            final(self)@ == Map::<ObjectRef, ObjectRef>::empty(),
            final(self).spec_len() == 0,
            final(self).bucket_count() == old(self).bucket_count(),
    {
        let n = self.buckets.len();
        let mut i: usize = 0;
        while i < n
            invariant
                n == self.buckets@.len(),
                n == old(self).buckets@.len(),
                i <= n,
                forall|i2: int| 0 <= i2 < i ==> #[trigger] self.buckets@[i2]@.len() == 0,
            decreases n - i,
        {
            self.buckets[i].clear();
            i = i + 1;
        }
        self.len = 0;
        assert(self@ =~= Map::<ObjectRef, ObjectRef>::empty());
    }
}

proof fn lemma_rest_step(bs: Seq<Seq<Entry>>, i: int, j: int)
    requires
        0 <= i < bs.len(),
        0 <= j <= bs[i].len(),
    ensures
        j < bs[i].len() ==> rest_of(bs, i, j).len() > 0 && rest_of(bs, i, j)[0] == bs[i][j]
            && rest_of(bs, i, j + 1) == rest_of(bs, i, j).drop_first(),
        j == bs[i].len() ==> rest_of(bs, i, j) == rest_of(bs, i + 1, 0),
{
    if j < bs[i].len() {
        assert(rest_of(bs, i, j + 1) =~= rest_of(bs, i, j).drop_first());
    } else {
        assert(rest_of(bs, i, j) =~= rest_of(bs, i + 1, 0));
    }
}

/// `e` sits in one of the buckets `i..` of `bs`.
pub open spec fn in_buckets_from(bs: Seq<Seq<Entry>>, i: int, e: Entry) -> bool {
    exists|a: int, b: int| i <= a < bs.len() && 0 <= b < bs[a].len() && #[trigger] bs[a][b] == e
}

proof fn lemma_rest_members(bs: Seq<Seq<Entry>>, i: int)
    requires
        0 <= i <= bs.len(),
    ensures
        forall|p: int| 0 <= p < rest_of(bs, i, 0).len() ==> #[trigger] in_buckets_from(bs, i, rest_of(bs, i, 0)[p]),
        forall|a: int, b: int| i <= a < bs.len() && 0 <= b < bs[a].len() ==> #[trigger] rest_of(bs, i, 0).contains(bs[a][b]),
    decreases bs.len() - i,
{
    if i < bs.len() {
        lemma_rest_members(bs, i + 1);
        let t = rest_of(bs, i + 1, 0);
        assert(rest_of(bs, i, 0) =~= bs[i] + t);
        assert forall|p: int| 0 <= p < rest_of(bs, i, 0).len() implies #[trigger] in_buckets_from(bs, i, rest_of(bs, i, 0)[p]) by {
            if p < bs[i].len() {
                assert(rest_of(bs, i, 0)[p] == bs[i][p]);
            } else {
                assert(rest_of(bs, i, 0)[p] == t[p - bs[i].len()]);
                assert(in_buckets_from(bs, i + 1, t[p - bs[i].len()]));
            }
        }
        assert forall|a: int, b: int| i <= a < bs.len() && 0 <= b < bs[a].len() implies #[trigger] rest_of(bs, i, 0).contains(bs[a][b]) by {
            if a == i {
                assert(rest_of(bs, i, 0)[b] == bs[i][b]);
            } else {
                assert(t.contains(bs[a][b]));
                let p = choose|p: int| 0 <= p < t.len() && t[p] == bs[a][b];
                assert(rest_of(bs, i, 0)[p + bs[i].len()] == t[p]);
            }
        }
    } else {
        assert(rest_of(bs, i, 0) =~= Seq::<Entry>::empty());
    }
}

proof fn lemma_rest_total(bs: Seq<Seq<Entry>>)
    ensures
        rest_of(bs, 0, 0).len() == total_len(bs),
    decreases bs.len(),
{
    if bs.len() > 0 {
        lemma_rest_total(bs.drop_last());
        lemma_rest_push(bs, 0);
    }
}

proof fn lemma_rest_push(bs: Seq<Seq<Entry>>, i: int)
    requires
        bs.len() > 0,
        0 <= i < bs.len(),
    ensures
        rest_of(bs, i, 0) == rest_of(bs.drop_last(), i, 0) + bs.last(),
    decreases bs.len() - i,
{
    if i < bs.len() - 1 {
        lemma_rest_push(bs, i + 1);
        assert(rest_of(bs, i, 0) =~= rest_of(bs.drop_last(), i, 0) + bs.last());
    } else {
        assert(rest_of(bs, i + 1, 0) =~= Seq::<Entry>::empty());
        assert(rest_of(bs.drop_last(), i, 0) =~= Seq::<Entry>::empty());
        assert(rest_of(bs, i, 0) =~= rest_of(bs.drop_last(), i, 0) + bs.last());
    }
}

/// The keys of a sequence of entries.
pub open spec fn keys_of(s: Seq<Entry>) -> Seq<ObjectRef> {
    s.map_values(|e: Entry| e.0)
}

/// Iterator over the entries of an `ObjectMap`, in bucket order.
pub struct Iter<'a> {
    buckets: &'a Vec<Vec<Entry>>,
    current_bucket: usize,
    current_index: usize,
}

impl<'a> Iter<'a> {
    /// The position lies within the table.
    pub closed spec fn wf(&self) -> bool {
        &&& self.current_bucket <= self.buckets@.len()
        &&& self.current_bucket < self.buckets@.len() ==> self.current_index
            <= self.buckets@[self.current_bucket as int]@.len()
    }

    /// The entries still to come.
    pub closed spec fn rest(&self) -> Seq<Entry> {
        rest_of(seqs_of(self.buckets@), self.current_bucket as int, self.current_index as int)
    }

    /// Yields the next entry.
    pub fn next(&mut self) -> (r: Option<Entry>)
        requires
            old(self).wf(),
        ensures
            final(self).wf(),
            old(self).rest().len() == 0 ==> r is None && final(self).rest() == old(self).rest(),
            old(self).rest().len() > 0 ==> r == Some(old(self).rest()[0]) && final(self).rest()
                == old(self).rest().drop_first(),
    {
        while self.current_bucket < self.buckets.len()
            invariant
                self.wf(),
                self.rest() == old(self).rest(),
            decreases self.buckets@.len() - self.current_bucket,
        {
            let bucket = &self.buckets[self.current_bucket];
            proof {
                lemma_rest_step(seqs_of(self.buckets@), self.current_bucket as int, self.current_index as int);
            }
            if self.current_index < bucket.len() {
                let e = bucket[self.current_index];
                self.current_index = self.current_index + 1;
                return Some(e);
            } else {
                self.current_bucket = self.current_bucket + 1;
                self.current_index = 0;
            }
        }
        None
    }
}

/// Cursor over the entries of an `ObjectMap`, in bucket order, through
/// which the value of the entry last yielded can be replaced.
pub struct IterMut {
    current_bucket: usize,
    current_index: usize,
}

impl IterMut {
    /// The position lies within `map`.
    pub closed spec fn wf(&self, map: &ObjectMap) -> bool {
        &&& self.current_bucket <= map.buckets@.len()
        &&& self.current_bucket < map.buckets@.len() ==> self.current_index
            <= map.buckets@[self.current_bucket as int]@.len()
    }

    /// The entries of `map` still to come.
    pub closed spec fn rest(&self, map: &ObjectMap) -> Seq<Entry> {
        rest_of(map.bucket_seqs(), self.current_bucket as int, self.current_index as int)
    }

    /// An entry was yielded last, at the position before the cursor.
    pub closed spec fn has_current(&self, map: &ObjectMap) -> bool {
        &&& self.current_bucket < map.buckets@.len()
        &&& 0 < self.current_index <= map.buckets@[self.current_bucket as int]@.len()
    }

    /// Key of the entry yielded last.
    pub closed spec fn current_key(&self, map: &ObjectMap) -> ObjectRef {
        map.buckets@[self.current_bucket as int]@[self.current_index - 1].0
    }

    /// Yields the next entry of `map`.
    pub fn next(&mut self, map: &ObjectMap) -> (r: Option<Entry>)
        requires
            old(self).wf(map),
        ensures
            final(self).wf(map),
            old(self).rest(map).len() == 0 ==> r is None && final(self).rest(map) == old(self).rest(map),
            old(self).rest(map).len() > 0 ==> {
                &&& r == Some(old(self).rest(map)[0])
                &&& final(self).rest(map) == old(self).rest(map).drop_first()
                &&& final(self).has_current(map)
                &&& final(self).current_key(map) == old(self).rest(map)[0].0
            },
    {
        while self.current_bucket < map.buckets.len()
            invariant
                self.wf(map),
                self.rest(map) == old(self).rest(map),
            decreases map.buckets@.len() - self.current_bucket,
        {
            let bucket = &map.buckets[self.current_bucket];
            proof {
                lemma_rest_step(map.bucket_seqs(), self.current_bucket as int, self.current_index as int);
            }
            if self.current_index < bucket.len() {
                let e = bucket[self.current_index];
                self.current_index = self.current_index + 1;
                return Some(e);
            } else {
                self.current_bucket = self.current_bucket + 1;
                self.current_index = 0;
            }
        }
        None
    }

    /// Replaces the value of the entry yielded last.
    pub fn set_value<T: KeyOps>(&self, map: &mut ObjectMap, value: ObjectRef)
        requires
            old(map).wf::<T>(),
            self.has_current(old(map)),
        ensures
            final(map).wf::<T>(),
            final(map)@ == old(map)@.insert(self.current_key(old(map)), value),
            final(map).spec_len() == old(map).spec_len(),
            self.rest(final(map)).len() == self.rest(old(map)).len(),
            self.has_current(final(map)),
    {
        let i = self.current_bucket;
        let j = self.current_index - 1;
        let k = map.buckets[i][j].0;
        let ghost before = *map;
        map.buckets[i].set(j, (k, value));
        proof {
            ObjectMap::lemma_set_value::<T>(before, *map, i as int, j as int, value);
            lemma_rest_len_same(before.bucket_seqs(), map.bucket_seqs(), i as int, j as int + 1);
        }
    }
}

proof fn lemma_rest_len_same(bs: Seq<Seq<Entry>>, cs: Seq<Seq<Entry>>, i: int, j: int)
    requires
        bs.len() == cs.len(),
        forall|a: int| 0 <= a < bs.len() ==> #[trigger] bs[a].len() == cs[a].len(),
        0 <= i < bs.len() ==> 0 <= j <= bs[i].len(),
    ensures
        rest_of(bs, i, j).len() == rest_of(cs, i, j).len(),
    decreases bs.len() - i,
{
    if 0 <= i < bs.len() {
        lemma_rest_len_same(bs, cs, i + 1, 0);
    }
}

/// Consuming iterator over the entries of an `ObjectMap`. Each step takes
/// the first entry of the current bucket out with `swap_remove`.
pub struct IntoIter {
    buckets: Vec<Vec<Entry>>,
    current_bucket: usize,
    current_index: usize,
}

impl IntoIter {
    /// The position lies within the table.
    pub closed spec fn wf(&self) -> bool {
        &&& self.current_bucket <= self.buckets@.len()
        &&& self.current_bucket < self.buckets@.len() ==> self.current_index
            <= self.buckets@[self.current_bucket as int]@.len()
    }

    /// The entries still to come (in the order the buckets now hold them).
    pub closed spec fn rest(&self) -> Seq<Entry> {
        rest_of(seqs_of(self.buckets@), self.current_bucket as int, self.current_index as int)
    }

    /// Yields the next entry: the first one still in the current bucket.
    pub fn next(&mut self) -> (r: Option<Entry>)
        requires
            old(self).wf(),
        ensures
            final(self).wf(),
            old(self).rest().len() == 0 ==> r is None && final(self).rest() == old(self).rest(),
            old(self).rest().len() > 0 ==> {
                &&& r == Some(old(self).rest()[0])
                &&& final(self).rest().to_multiset() == old(self).rest().to_multiset().remove(r->0)
                &&& final(self).rest().len() + 1 == old(self).rest().len()
            },
    {
        while self.current_bucket < self.buckets.len()
            invariant
                self.wf(),
                self.rest() == old(self).rest(),
            decreases self.buckets@.len() - self.current_bucket,
        {
            let cb = self.current_bucket;
            let ci = self.current_index;
            proof {
                lemma_rest_step(seqs_of(self.buckets@), cb as int, ci as int);
            }
            if ci < self.buckets[cb].len() {
                let ghost bs = seqs_of(self.buckets@);
                let e = self.buckets[cb].swap_remove(ci);
                proof {
                    let cs = seqs_of(self.buckets@);
                    assert(cs =~= bs.update(cb as int, bs[cb as int].update(ci as int, bs[cb as int].last()).drop_last()));
                    lemma_rest_swap_remove(bs, cb as int, ci as int);
                }
                return Some(e);
            } else {
                self.current_bucket = self.current_bucket + 1;
                self.current_index = 0;
            }
        }
        None
    }
}

proof fn lemma_rest_swap_remove(bs: Seq<Seq<Entry>>, i: int, j: int)
    requires
        0 <= i < bs.len(),
        0 <= j < bs[i].len(),
    ensures
        ({
            let cs = bs.update(i, bs[i].update(j, bs[i].last()).drop_last());
            &&& rest_of(cs, i, j).to_multiset() == rest_of(bs, i, j).to_multiset().remove(bs[i][j])
            &&& rest_of(cs, i, j).len() + 1 == rest_of(bs, i, j).len()
        }),
{
    let cs = bs.update(i, bs[i].update(j, bs[i].last()).drop_last());
    let tail = rest_of(bs, i + 1, 0);
    lemma_rest_same_from(bs, cs, i + 1);
    let b = bs[i];
    let c = cs[i];
    let lb = b.subrange(j, b.len() as int);
    let lc = c.subrange(j, c.len() as int);
    assert(rest_of(bs, i, j) == lb + tail);
    assert(rest_of(cs, i, j) == lc + tail);
    broadcast use vstd::seq_lib::group_to_multiset_ensures;
    vstd::seq_lib::lemma_multiset_commutative(lb, tail);
    vstd::seq_lib::lemma_multiset_commutative(lc, tail);
    if j == b.len() - 1 {
        assert(lc =~= Seq::<Entry>::empty());
        assert(lb =~= seq![b[j]]);
        assert(lb.to_multiset() =~= lc.to_multiset().insert(b[j]));
    } else {
        assert(lb =~= seq![b[j]] + lb.subrange(1, lb.len() as int));
        assert(lc =~= seq![b.last()] + lb.subrange(1, lb.len() - 1));
        assert(lb.subrange(1, lb.len() as int) =~= lb.subrange(1, lb.len() - 1).push(b.last()));
        vstd::seq_lib::lemma_multiset_commutative(seq![b[j]], lb.subrange(1, lb.len() as int));
        vstd::seq_lib::lemma_multiset_commutative(seq![b.last()], lb.subrange(1, lb.len() - 1));
        assert(lb.to_multiset() =~= lc.to_multiset().insert(b[j]));
    }
    assert((lb + tail).to_multiset() =~= (lc + tail).to_multiset().insert(b[j]));
}

proof fn lemma_rest_same_from(bs: Seq<Seq<Entry>>, cs: Seq<Seq<Entry>>, i: int)
    requires
        bs.len() == cs.len(),
        forall|a: int| i <= a < bs.len() ==> #[trigger] bs[a] == cs[a],
    ensures
        rest_of(bs, i, 0) == rest_of(cs, i, 0),
    decreases bs.len() - i,
{
    if 0 <= i < bs.len() {
        lemma_rest_same_from(bs, cs, i + 1);
    }
}


/// A value written through the cursor of `iter_mut` is what a lookup of the
/// entry's key then gives.
pub proof fn lemma_set_value_then_get<T: KeyOps>(m0: ObjectMap, m1: ObjectMap, it: IterMut, v: ObjectRef)
    requires
        m0.wf::<T>(),
        it.has_current(&m0),
        m1@ == m0@.insert(it.current_key(&m0), v),
    ensures
        lookup::<T>(m1@, it.current_key(&m0)) == Some(v),
{
    let k = it.current_key(&m0);
    m0.lemma_entries_are_contents::<T>();
    assert(m0.valid_pos(it.current_bucket as int, it.current_index - 1));
    assert(m0@.dom().contains(k));
    assert(m1@.dom() =~= m0@.dom());
    assert(keys_distinct::<T>(m1@));
    T::lemma_key_laws(k, k, k);
    lemma_find_key_unique::<T>(m1@, k, k);
}

/// Storing a value under a key no stored key equals and removing that key
/// again gives back the value and the contents from before.
pub proof fn lemma_insert_then_remove<T: KeyOps>(m: Map<ObjectRef, ObjectRef>, k: ObjectRef, v: ObjectRef)
    requires
        keys_distinct::<T>(m),
        find_key::<T>(m, k) is None,
    ensures
        lookup::<T>(insert_entry::<T>(m, k, v), k) == Some(v),
        remove_entry::<T>(insert_entry::<T>(m, k, v), k) == m,
{
    lemma_lookup_after_insert::<T>(m, k, v, k);
    T::lemma_key_laws(k, k, k);
    let m1 = insert_entry::<T>(m, k, v);
    assert(m1 == m.insert(k, v));
    lemma_find_key_unique::<T>(m1, k, k);
    assert(!m.dom().contains(k)) by {
        if m.dom().contains(k) {
            assert(m.dom().contains(k) && T::spec_eq(k, k));
        }
    }
    assert(m1.remove(k) =~= m);
}


/// Building a table from pairs with `from_iter` gives the contents
/// `from_vec` gives for the same pairs.
pub proof fn lemma_from_iter_is_from_vec<T: KeyOps>(a: ObjectMap, b: ObjectMap, pairs: Seq<Entry>)
    requires
        a@ == insert_all::<T>(Map::empty(), pairs),
        b@ == insert_all::<T>(Map::empty(), pairs),
        a.wf::<T>(),
        b.wf::<T>(),
    ensures
        a@ == b@,
        a.spec_len() == b.spec_len(),
{
    a.lemma_entries_are_contents::<T>();
    b.lemma_entries_are_contents::<T>();
}

} // verus!
