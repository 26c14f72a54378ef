//! Object heap of the virtual machine.
//!
//! Objects live in an arena and are named by handles: handle `h > 0` names
//! slot `h - 1`, handle 0 is null. Each object counts the strong references
//! held to it. Weak references go through weak cells, which the collector
//! clears when it frees their object.

use vstd::prelude::*;
use crate::stdlib::json::JsonValue;
use crate::utils::map::ObjectMap;

verus! {

/// Handle of an object on the VM heap; the value 0 is the null handle.
#[derive(Clone, Copy, PartialEq, Eq, Structural, Debug)]
pub struct ObjectRef(pub u64);

/// Handle of an object that is not null.
#[derive(Clone, Copy, PartialEq, Eq, Structural, Debug)]
pub struct ObjectRefNN(u64);

/// Handle of a weak cell; the value 0 names no cell.
#[derive(Clone, Copy, PartialEq, Eq, Structural, Debug)]
pub struct ObjectWeakRef(pub u64);

/// A loaded class: the module that defines it (by its load id), its index
/// among the module's classes, and whether it is the class of a singleton
/// object rather than an ordinary class.
#[derive(Clone, Copy, PartialEq, Eq, Structural, Debug)]
pub struct ClassRef {
    pub module_id: u64,
    pub index: usize,
    pub singleton: bool,
}

impl ObjectRef {
    /// The null handle.
    pub fn null() -> (r: ObjectRef)
        ensures
            r.0 == 0,
    {
        ObjectRef(0)
    }

    /// Whether this handle is the null handle.
    pub fn is_null(&self) -> (r: bool)
        ensures
            r == (self.0 == 0),
    {
        self.0 == 0
    }

    /// The handle as a non-null one, unless it is null.
    pub fn try_deref(&self) -> (r: Option<ObjectRefNN>)
        ensures
            self.0 == 0 ==> r is None,
            self.0 != 0 ==> (r matches Some(nn) && nn.addr() == self.0),
    {
        if self.0 == 0 {
            None
        } else {
            Some(ObjectRefNN(self.0))
        }
    }
}

impl ObjectRefNN {
    #[verifier::type_invariant]
    spec fn non_null(self) -> bool {
        self.0 != 0
    }

    /// The handle value.
    pub closed spec fn addr(self) -> u64 {
        self.0
    }

    /// Makes a non-null handle from a handle value.
    pub fn new(addr: u64) -> (r: ObjectRefNN)
        requires
            addr != 0,
        ensures
            r.addr() == addr,
    {
        ObjectRefNN(addr)
    }

    /// The handle value, which is never 0.
    pub fn get(&self) -> (r: u64)
        ensures
            r == self.addr(),
            r != 0,
    {
        proof {
            use_type_invariant(self);
        }
        self.0
    }

    /// The same object as a possibly-null handle.
    pub fn to_ref(&self) -> (r: ObjectRef)
        ensures
            r.0 == self.addr(),
            r.0 != 0,
    {
        ObjectRef(self.get())
    }
}

/// Named fields of an object, each name at most once.
pub struct Fields {
    entries: Vec<(String, ObjectRef)>,
}

/// The field values as a map from names.
pub open spec fn fields_map(s: Seq<(Seq<char>, ObjectRef)>) -> Map<Seq<char>, ObjectRef>
    decreases s.len(),
{
    if s.len() == 0 {
        Map::empty()
    } else {
        fields_map(s.drop_last()).insert(s.last().0, s.last().1)
    }
}

impl Fields {
    /// The fields in their order, names as character sequences.
    pub closed spec fn entries(&self) -> Seq<(Seq<char>, ObjectRef)> {
        self.entries@.map_values(|e: (String, ObjectRef)| (e.0@, e.1))
    }

    /// Names occur once each.
    pub closed spec fn wf(&self) -> bool {
        forall|i: int, j: int|
            0 <= i < self.entries@.len() && 0 <= j < self.entries@.len() && i != j
                ==> #[trigger] self.entries@[i].0@ != #[trigger] self.entries@[j].0@
    }

    /// In well-formed fields, two positions hold two names.
    pub proof fn lemma_names_distinct(&self, i: int, j: int)
        requires
            self.wf(),
            0 <= i < self.entries().len(),
            0 <= j < self.entries().len(),
            i != j,
        ensures
            self.entries()[i].0 != self.entries()[j].0,
    {
        assert(self.entries()[i].0 == self.entries@[i].0@);
        assert(self.entries()[j].0 == self.entries@[j].0@);
    }

    /// No fields.
    pub fn new() -> (r: Fields)
        ensures
            r.wf(),
            r.entries() == Seq::<(Seq<char>, ObjectRef)>::empty(),
    {
        let r = Fields { entries: Vec::new() };
        assert(r.entries() =~= Seq::<(Seq<char>, ObjectRef)>::empty());
        r
    }

    /// Number of fields.
    pub fn len(&self) -> (r: usize)
        ensures
            r == self.entries().len(),
    {
        self.entries.len()
    }

    /// The field at position `i`.
    pub fn at(&self, i: usize) -> (r: (&String, ObjectRef))
        requires
            i < self.entries().len(),
        ensures
            r.0@ == self.entries()[i as int].0,
            r.1 == self.entries()[i as int].1,
    {
        let e = &self.entries[i];
        (&e.0, e.1)
    }

    /// The value of the field `name`.
    pub fn get(&self, name: &str) -> (r: Option<ObjectRef>)
        requires
            self.wf(),
        ensures
            r is Some <==> exists|i: int| 0 <= i < self.entries().len() && #[trigger] self.entries()[i].0 == name@,
            r matches Some(v) ==> exists|i: int|
                0 <= i < self.entries().len() && #[trigger] self.entries()[i] == (name@, v),
    {
        let n = self.entries.len();
        let mut i: usize = 0;
        while i < n
            invariant
                n == self.entries@.len(),
                i <= n,
                forall|j: int| 0 <= j < i ==> #[trigger] self.entries()[j].0 != name@,
            decreases n - i,
        {
            if string_eq_str(&self.entries[i].0, name) {
                assert(self.entries()[i as int].0 == name@);
                assert(self.entries()[i as int] == (name@, self.entries@[i as int].1));
                return Some(self.entries[i].1);
            }
            i = i + 1;
        }
        None
    }

    /// Sets the field `name` to `value`: an existing field keeps its place,
    /// a new one comes last.
    pub fn insert(&mut self, name: String, value: ObjectRef)
        requires
            old(self).wf(),
        ensures
            final(self).wf(),
            (exists|i: int| 0 <= i < old(self).entries().len() && #[trigger] old(self).entries()[i].0 == name@)
                ==> exists|i: int|
                0 <= i < old(self).entries().len() && #[trigger] old(self).entries()[i].0 == name@
                    && final(self).entries() == old(self).entries().update(i, (name@, value)),
            !(exists|i: int| 0 <= i < old(self).entries().len() && #[trigger] old(self).entries()[i].0 == name@)
                ==> final(self).entries() == old(self).entries().push((name@, value)),
    {
        let n = self.entries.len();
        let mut i: usize = 0;
        while i < n
            invariant
                n == self.entries@.len(),
                i <= n,
                self.wf(),
                *self == *old(self),
                forall|j: int| 0 <= j < i ==> #[trigger] self.entries()[j].0 != name@,
            decreases n - i,
        {
            if string_eq_str(&self.entries[i].0, name.as_str()) {
                let ghost before = self.entries();
                let ghost old_entries = self.entries@;
                assert(before[i as int].0 == name@);
                self.entries.set(i, (name, value));
                assert(self.entries() =~= before.update(i as int, (before[i as int].0, value)));
                assert forall|a: int| 0 <= a < self.entries@.len() implies #[trigger] self.entries@[a].0@ == old_entries[a].0@ by {
                }
                return;
            }
            i = i + 1;
        }
        let ghost before = self.entries();
        let ghost old_entries = self.entries@;
        self.entries.push((name, value));
        assert(self.entries() =~= before.push((name@, value)));
        assert forall|a: int| 0 <= a < old_entries.len() implies #[trigger] self.entries@[a].0@ != self.entries@[n as int].0@ by {
            assert(self.entries()[a].0 != name@);
        }
    }
}

/// Whether a `String` holds the same characters as a `&str`.
pub fn string_eq_str(a: &String, b: &str) -> (r: bool)
    ensures
        r == (a@ == b@),
{
    let s = String::from_str(b);
    *a == s
}

/// Bookkeeping bits of an object.
pub struct ObjectFlags {
    /// Number of strong references held to the object.
    pub rc: u64,
    /// The object has a native part that its class's `__uninit__` releases.
    pub uninit: bool,
    /// The collector marks through the object's `__mark__`.
    pub marker: bool,
}

impl ObjectFlags {
    /// Counts one more strong reference (wrapping like an atomic add).
    pub fn inc_rc(&mut self)
        ensures
            final(self).rc == (if old(self).rc == u64::MAX { 0 } else { (old(self).rc + 1) as u64 }),
            final(self).uninit == old(self).uninit,
            final(self).marker == old(self).marker,
    {
        self.rc = self.rc.wrapping_add(1);
    }

    /// Counts one strong reference less (wrapping like an atomic sub).
    pub fn dec_rc(&mut self)
        ensures
            final(self).rc == (if old(self).rc == 0 { u64::MAX } else { (old(self).rc - 1) as u64 }),
            final(self).uninit == old(self).uninit,
            final(self).marker == old(self).marker,
    {
        self.rc = self.rc.wrapping_sub(1);
    }

    pub fn mark_uninit(&mut self)
        ensures
            final(self).uninit,
            final(self).rc == old(self).rc,
            final(self).marker == old(self).marker,
    {
        self.uninit = true;
    }

    pub fn mark_marker(&mut self)
        ensures
            final(self).marker,
            final(self).rc == old(self).rc,
            final(self).uninit == old(self).uninit,
    {
        self.marker = true;
    }
}

/// Native part of an object, kept by the classes of the core library.
pub enum NativeData {
    Empty,
    Table(ObjectMap),
    Json(JsonValue),
    F64Bits(u64),
    I64(i64),
    Text(String),
}

/// An object: its class, its fields, its flags and its native part.
pub struct Object {
    pub class: ClassRef,
    pub fields: Fields,
    pub flags: ObjectFlags,
    pub native: NativeData,
}

/// The object arena and the weak cells.
pub struct VMHeap {
    objects: Vec<Option<Object>>,
    weak: Vec<ObjectRef>,
}

impl VMHeap {
    /// `h` names a live object.
    pub closed spec fn live(&self, h: u64) -> bool {
        1 <= h <= self.objects@.len() && self.objects@[h - 1] is Some
    }

    /// The null handle names no object.
    pub proof fn lemma_live_nonnull(&self, h: u64)
        ensures
            self.live(h) ==> h != 0,
    {
    }

    /// The object that `h` names.
    pub closed spec fn object(&self, h: u64) -> Object {
        self.objects@[h - 1]->0
    }

    /// Strong references counted for the object `h`.
    pub open spec fn rc(&self, h: u64) -> u64 {
        self.object(h).flags.rc
    }

    /// `w` names a weak cell.
    pub closed spec fn weak_live(&self, w: ObjectWeakRef) -> bool {
        1 <= w.0 <= self.weak@.len()
    }

    /// The object a weak cell points to; null once the object was freed.
    pub closed spec fn weak_target(&self, w: ObjectWeakRef) -> ObjectRef {
        self.weak@[w.0 - 1]
    }

    /// Number of objects ever allocated.
    pub closed spec fn allocated(&self) -> nat {
        self.objects@.len()
    }

    /// Number of weak cells ever made.
    pub closed spec fn weak_cells(&self) -> nat {
        self.weak@.len()
    }

    /// Objects other than `h` are as in `other`, and weak cells too.
    pub open spec fn same_except(&self, other: &VMHeap, h: u64) -> bool {
        &&& forall|g: u64| g != h ==> (#[trigger] self.live(g) <==> other.live(g))
        &&& forall|g: u64| g != h && self.live(g) ==> #[trigger] self.object(g) == other.object(g)
        &&& self.weak_cells() == other.weak_cells()
        &&& forall|w: ObjectWeakRef| #[trigger] self.weak_target(w) == other.weak_target(w)
    }

    /// An empty heap.
    pub fn new() -> (r: VMHeap)
        ensures
            forall|h: u64| !r.live(h),
            r.allocated() == 0,
            r.weak_cells() == 0,
    {
        VMHeap { objects: Vec::new(), weak: Vec::new() }
    }

    /// Allocates an object of `class` without fields or native part, held
    /// by one strong reference.
    pub fn allocate(&mut self, class: ClassRef) -> (r: ObjectRefNN)
        requires
            old(self).allocated() < u64::MAX,
        ensures
            r.addr() == old(self).allocated() + 1,
            final(self).allocated() == old(self).allocated() + 1,
            final(self).live(r.addr()),
            final(self).object(r.addr()).class == class,
            final(self).object(r.addr()).fields.entries().len() == 0,
            final(self).object(r.addr()).fields.wf(),
            final(self).object(r.addr()).flags.rc == 1,
            !final(self).object(r.addr()).flags.uninit,
            !final(self).object(r.addr()).flags.marker,
            final(self).object(r.addr()).native is Empty,
            final(self).same_except(&*old(self), r.addr()),
    {
        let fields = Fields::new();
        let flags = ObjectFlags { rc: 1, uninit: false, marker: false };
        self.objects.push(Some(Object { class, fields, flags, native: NativeData::Empty }));
        let n = self.objects.len() as u64;
        ObjectRefNN::new(n)
    }

    /// Number of objects ever allocated; handles `1..=` it name them.
    pub fn slot_count(&self) -> (r: usize)
        ensures
            r == self.allocated(),
    {
        self.objects.len()
    }

    /// Whether `h` names a live object.
    pub fn is_live(&self, h: u64) -> (r: bool)
        ensures
            r == self.live(h),
    {
        if h == 0 || h > self.objects.len() as u64 {
            false
        } else {
            self.objects[(h - 1) as usize].is_some()
        }
    }

    /// Only objects that were allocated are live.
    pub proof fn lemma_live_allocated(&self, h: u64)
        ensures
            self.live(h) ==> 1 <= h <= self.allocated(),
    {
    }

    /// The object `h` names.
    pub fn get(&self, h: ObjectRefNN) -> (r: &Object)
        requires
            self.live(h.addr()),
        ensures
            *r == self.object(h.addr()),
    {
        let n = self.objects.len();
        let i = (h.get() - 1) as usize;
        assert(i == h.addr() - 1);
        match &self.objects[i] {
            Some(o) => o,
            None => vstd::pervasive::unreached(),
        }
    }

    /// The object `h` names, writable.
    pub fn get_mut(&mut self, h: ObjectRefNN) -> (r: &mut Object)
        requires
            old(self).live(h.addr()),
        ensures
            *r == old(self).object(h.addr()),
            final(self).live(h.addr()),
            final(self).object(h.addr()) == *final(r),
            final(self).same_except(&*old(self), h.addr()),
            final(self).allocated() == old(self).allocated(),
    {
        let n = self.objects.len();
        let i = (h.get() - 1) as usize;
        assert(i == h.addr() - 1);
        let slot = &mut self.objects[i];
        match slot {
            Some(o) => o,
            None => vstd::pervasive::unreached(),
        }
    }

    /// Counts one more strong reference to `h`.
    pub fn inc_rc(&mut self, h: ObjectRefNN)
        requires
            old(self).live(h.addr()),
        ensures
            final(self).live(h.addr()),
            final(self).rc(h.addr()) == (if old(self).rc(h.addr()) == u64::MAX { 0 } else { (old(self).rc(h.addr()) + 1) as u64 }),
            final(self).object(h.addr()).class == old(self).object(h.addr()).class,
            final(self).object(h.addr()).fields == old(self).object(h.addr()).fields,
            final(self).same_except(&*old(self), h.addr()),
            final(self).allocated() == old(self).allocated(),
    {
        self.get_mut(h).flags.inc_rc();
    }

    /// Counts one strong reference less to `h`.
    pub fn dec_rc(&mut self, h: ObjectRefNN)
        requires
            old(self).live(h.addr()),
        ensures
            final(self).live(h.addr()),
            final(self).rc(h.addr()) == (if old(self).rc(h.addr()) == 0 { u64::MAX } else { (old(self).rc(h.addr()) - 1) as u64 }),
            final(self).object(h.addr()).class == old(self).object(h.addr()).class,
            final(self).object(h.addr()).fields == old(self).object(h.addr()).fields,
            final(self).same_except(&*old(self), h.addr()),
            final(self).allocated() == old(self).allocated(),
    {
        self.get_mut(h).flags.dec_rc();
    }

    /// Makes a weak cell pointing to `h`.
    pub fn new_weak(&mut self, h: ObjectRefNN) -> (r: ObjectWeakRef)
        requires
            old(self).weak_cells() < u64::MAX,
        ensures
            final(self).weak_live(r),
            r.0 == old(self).weak_cells() + 1,
            final(self).weak_target(r) == h.to_ref_spec(),
            final(self).weak_cells() == old(self).weak_cells() + 1,
            forall|w: ObjectWeakRef| old(self).weak_live(w) ==> #[trigger] final(self).weak_target(w) == old(self).weak_target(w)
                && final(self).weak_live(w),
            forall|g: u64| #[trigger] final(self).live(g) == old(self).live(g),
            forall|g: u64| old(self).live(g) ==> #[trigger] final(self).object(g) == old(self).object(g),
            final(self).allocated() == old(self).allocated(),
    {
        let t = h.to_ref();
        self.weak.push(t);
        let n = self.weak.len() as u64;
        ObjectWeakRef(n)
    }

    /// Releases a weak cell: it points nowhere from now on.
    pub fn drop_weak(&mut self, w: ObjectWeakRef)
        requires
            old(self).weak_live(w),
        ensures
            final(self).weak_target(w).0 == 0,
            final(self).weak_cells() == old(self).weak_cells(),
            forall|v: ObjectWeakRef| v != w && old(self).weak_live(v) ==> #[trigger] final(self).weak_target(v) == old(self).weak_target(v),
            forall|g: u64| #[trigger] final(self).live(g) == old(self).live(g),
            forall|g: u64| old(self).live(g) ==> #[trigger] final(self).object(g) == old(self).object(g),
            final(self).allocated() == old(self).allocated(),
    {
        let n = self.weak.len();
        let i = (w.0 - 1) as usize;
        self.weak.set(i, ObjectRef(0));
        assert forall|v: ObjectWeakRef| v != w && old(self).weak_live(v) implies #[trigger] self.weak_target(v) == old(self).weak_target(v) by {
        }
    }

    /// The object a weak cell points to.
    pub fn weak_object(&self, w: ObjectWeakRef) -> (r: ObjectRef)
        requires
            self.weak_live(w),
        ensures
            r == self.weak_target(w),
    {
        let n = self.weak.len();
        self.weak[(w.0 - 1) as usize]
    }

    /// Frees the object `h` and clears the weak cells that point to it.
    pub fn free(&mut self, h: ObjectRefNN)
        requires
            old(self).live(h.addr()),
        ensures
            !final(self).live(h.addr()),
            forall|g: u64| g != h.addr() ==> #[trigger] final(self).live(g) == old(self).live(g),
            forall|g: u64| g != h.addr() && old(self).live(g) ==> #[trigger] final(self).object(g) == old(self).object(g),
            final(self).weak_cells() == old(self).weak_cells(),
            forall|w: ObjectWeakRef| old(self).weak_live(w) ==> #[trigger] final(self).weak_target(w) == if old(
                self,
            ).weak_target(w) == h.to_ref_spec() {
                ObjectRef(0)
            } else {
                old(self).weak_target(w)
            },
            final(self).allocated() == old(self).allocated(),
    {
        let n0 = self.objects.len();
        let i = (h.get() - 1) as usize;
        assert(i == h.addr() - 1);
        self.objects.set(i, None);
        let n = self.weak.len();
        let mut j: usize = 0;
        let target = h.to_ref();
        while j < n
            invariant
                n == self.weak@.len(),
                n == old(self).weak@.len(),
                j <= n,
                target == h.to_ref_spec(),
                forall|k: int| 0 <= k < j ==> #[trigger] self.weak@[k] == if old(self).weak@[k] == target {
                    ObjectRef(0)
                } else {
                    old(self).weak@[k]
                },
                forall|k: int| j <= k < n ==> #[trigger] self.weak@[k] == old(self).weak@[k],
                self.objects@ == old(self).objects@.update(i as int, None),
            decreases n - j,
        {
            if self.weak[j] == target {
                self.weak.set(j, ObjectRef(0));
            }
            j = j + 1;
        }
        assert forall|w: ObjectWeakRef| old(self).weak_live(w) implies #[trigger] self.weak_target(w) == if old(
            self,
        ).weak_target(w) == h.to_ref_spec() {
            ObjectRef(0)
        } else {
            old(self).weak_target(w)
        } by {
            assert(self.weak@[w.0 - 1] == if old(self).weak@[w.0 - 1] == target {
                ObjectRef(0)
            } else {
                old(self).weak@[w.0 - 1]
            });
        }
    }
}

impl ObjectRefNN {
    /// The same object as a possibly-null handle.
    pub open spec fn to_ref_spec(self) -> ObjectRef {
        ObjectRef(self.addr())
    }
}

} // verus!
