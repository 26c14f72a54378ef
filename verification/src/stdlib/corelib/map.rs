//! `std/core/Map`: objects whose native part is a hash table from objects
//! to objects, hashed and compared by the VM.

use vstd::prelude::*;
use crate::napi::ptr::ObjectSmartRefNN;
use crate::stdlib::corelib::object::{alloc_instance, allocated_instance, object_eq, object_ok, objects_equal};
use crate::stdlib::json::{element_json, is_element, JsonValue};
use crate::text::last_index;
use crate::utils::map::{
    find_key, insert_all, insert_entry, keys_distinct, keys_of, lemma_find_key_unique, lookup, Entry, KeyOps, ObjectMap,
};
use crate::vm::heap::{NativeData, ObjectRef, ObjectRefNN, VMHeap};
use crate::vm::module::{class_lookup, fresh_object};
use crate::vm::{VMError, VM};

verus! {

/// The object `h` is live and holds a table well formed under `T`.
pub open spec fn has_table<T: KeyOps>(heap: VMHeap, h: u64) -> bool {
    &&& heap.live(h)
    &&& heap.object(h).native is Table
    &&& heap.object(h).native->Table_0.wf::<T>()
}

/// The contents of the table the object `h` holds.
pub open spec fn table(heap: VMHeap, h: u64) -> Map<ObjectRef, ObjectRef> {
    heap.object(h).native->Table_0@
}

/// Allocates a `std/core/Map` holding the pairs of `entries`, inserted in
/// order (a later pair replaces the value of an equal key). The VM runs its
/// `__init__` next. A failing hash or comparison leaves the object
/// allocated without its table.
pub fn alloc_map<T: KeyOps>(vm: &mut VM, ops: &T, entries: Vec<Entry>) -> (r: Result<ObjectSmartRefNN, VMError>)
    requires
        old(vm).heap.allocated() < u64::MAX,
        entries@.len() < usize::MAX / 4,
    ensures
        final(vm).modules == old(vm).modules,
        class_lookup(old(vm).modules.modules@, "std/core/Map"@) matches Some(Some(c)) ==> {
            &&& final(vm).heap.allocated() == old(vm).heap.allocated() + 1
            &&& r matches Ok(x) ==> x.0.addr() == old(vm).heap.allocated() + 1 && has_table::<T>(final(vm).heap, x.0.addr())
                && table(final(vm).heap, x.0.addr()) == insert_all::<T>(Map::empty(), entries@)
                && final(vm).heap.object(x.0.addr()).class == c
                && final(vm).heap.object(x.0.addr()).fields.entries().len() == 0
                && final(vm).heap.object(x.0.addr()).flags.rc == 1
                && final(vm).heap.same_except(&old(vm).heap, x.0.addr())
            &&& r is Err ==> fresh_object(final(vm).heap, (old(vm).heap.allocated() + 1) as u64, c)
                && final(vm).heap.same_except(&old(vm).heap, (old(vm).heap.allocated() + 1) as u64)
        },
        !(class_lookup(old(vm).modules.modules@, "std/core/Map"@) matches Some(Some(_))) ==> allocated_instance(
            *old(vm),
            *final(vm),
            "std/core/Map"@,
            r,
        ),
        (T::infallible() && (class_lookup(old(vm).modules.modules@, "std/core/Map"@) matches Some(Some(_)))) ==> r is Ok,
{
    proof {
        reveal_strlit("std/core/Map");
        reveal_with_fuel(last_index, 5);
    }
    let object = alloc_instance(vm, "std/core/Map")?;
    let table = ObjectMap::from_vec(ops, entries)?;
    let o = vm.heap.get_mut(object.0);
    o.native = NativeData::Table(table);
    Ok(object)
}

/// The class of the object `h` is `std/core/Map` of the module loaded as
/// `std/core`.
pub open spec fn is_core_map(vm: VM, h: u64) -> bool {
    let c = vm.heap.object(h).class;
    &&& crate::vm::module::module_path_of(vm.modules.modules@, c.module_id) == Some("std/core"@)
    &&& crate::vm::module::class_of(vm.modules.modules@, c) matches Some(k) && k.name@ == "Map"@
}

/// The entries of a `std/core/Map` object, in table order; `None` for an
/// object of another class (or without a table), which the VM asks
/// through its `__to_map__` method; `NullPointer` for null.
pub fn map_to_native(vm: &VM, value: ObjectRef) -> (r: Result<Option<Vec<Entry>>, VMError>)
    requires
        value.0 != 0 ==> vm.heap.live(value.0),
    ensures
        value.0 == 0 ==> r matches Err(VMError::NullPointer),
        value.0 != 0 && is_core_map(*vm, value.0) && vm.heap.object(value.0).native is Table ==> (r matches Ok(Some(v))
            && v@ == vm.heap.object(value.0).native->Table_0.entries()),
        value.0 != 0 && !(is_core_map(*vm, value.0) && vm.heap.object(value.0).native is Table) ==> r matches Ok(None),
{
    if value.0 == 0 {
        return Err(VMError::NullPointer);
    }
    let object = vm.heap.get(ObjectRefNN::new(value.0));
    let in_core = match vm.modules.path_of_module(object.class.module_id) {
        Some(path) => crate::vm::heap::string_eq_str(path, "std/core"),
        None => false,
    };
    let is_map = match vm.modules.class_of(object.class) {
        Some(k) => crate::vm::heap::string_eq_str(&k.name, "Map"),
        None => false,
    };
    if !(in_core && is_map) {
        return Ok(None);
    }
    match &object.native {
        NativeData::Table(m) => Ok(Some(m.to_vec())),
        _ => Ok(None),
    }
}

/// Tables `a` and `b` hold as many keys, and each key of `a` has an equal
/// key in `b` whose value is equal under `T` to its own.
pub open spec fn tables_equal<T: KeyOps>(a: Map<ObjectRef, ObjectRef>, b: Map<ObjectRef, ObjectRef>) -> bool {
    &&& a.dom().len() == b.dom().len()
    &&& forall|k: ObjectRef| #[trigger] a.dom().contains(k) ==> (lookup::<T>(b, k) matches Some(w) && T::spec_eq(a[k], w))
}

/// Two tables with as many keys are equal when each key of the first has
/// a key in the second, equal to it under `T`, whose value is equal under
/// `T` to its own: values are compared through the VM's equality, whatever
/// their handles.
pub proof fn lemma_tables_equal_by_values<T: KeyOps>(a: Map<ObjectRef, ObjectRef>, b: Map<ObjectRef, ObjectRef>)
    requires
        a.dom().len() == b.dom().len(),
        keys_distinct::<T>(b),
        forall|k: ObjectRef|
            #[trigger] a.dom().contains(k) ==> exists|k2: ObjectRef|
                #![trigger b[k2]]
                b.dom().contains(k2) && T::spec_eq(k2, k) && T::spec_eq(a[k], b[k2]),
    ensures
        tables_equal::<T>(a, b),
{
    assert forall|k: ObjectRef| #[trigger] a.dom().contains(k) implies (lookup::<T>(b, k) matches Some(w) && T::spec_eq(
        a[k],
        w,
    )) by {
        let k2 = choose|k2: ObjectRef| #![trigger b[k2]] b.dom().contains(k2) && T::spec_eq(k2, k) && T::spec_eq(a[k], b[k2]);
        lemma_find_key_unique::<T>(b, k, k2);
    }
}

/// Conversely, in equal tables each key of the first has a key in the
/// second, equal to it under `T`, whose value is equal under `T` to its own.
pub proof fn lemma_equal_tables_values<T: KeyOps>(a: Map<ObjectRef, ObjectRef>, b: Map<ObjectRef, ObjectRef>, k: ObjectRef)
    requires
        tables_equal::<T>(a, b),
        a.dom().contains(k),
    ensures
        a.dom().len() == b.dom().len(),
        exists|k2: ObjectRef| #![trigger b[k2]] b.dom().contains(k2) && T::spec_eq(k2, k) && T::spec_eq(a[k], b[k2]),
{
    let k2 = find_key::<T>(b, k)->0;
    assert(b.dom().contains(k2) && T::spec_eq(k2, k) && T::spec_eq(a[k], b[k2]));
}

/// Equality of maps as `std/core/Map`'s `__eq__` defines it: equal as
/// objects (see `objects_equal`), and, unless null, with equal tables.
pub open spec fn maps_equal<T: KeyOps>(heap: VMHeap, this: ObjectRef, other: ObjectRef) -> bool {
    objects_equal::<T>(heap, this, other) && (this.0 == 0 || tables_equal::<T>(table(heap, this.0), table(heap, other.0)))
}

/// Compares two maps as `std/core/Map`'s `__eq__` does (see `maps_equal`):
/// first as objects, then entry by entry in table order, looking each key
/// up in the other map and comparing the values through the VM.
pub fn map_eq<T: KeyOps>(vm: &VM, ops: &T, this: ObjectRef, other: ObjectRef) -> (r: Result<bool, VMError>)
    requires
        object_ok(vm.heap, this),
        object_ok(vm.heap, other),
        this.0 != 0 ==> has_table::<T>(vm.heap, this.0),
        other.0 != 0 ==> has_table::<T>(vm.heap, other.0),
    ensures
        r matches Ok(b) ==> b == maps_equal::<T>(vm.heap, this, other),
        this.0 == 0 && other.0 == 0 ==> r matches Ok(true),
        this.0 != other.0 && (this.0 == 0 || other.0 == 0) ==> r matches Ok(false),
        this.0 != other.0 && this.0 != 0 && other.0 != 0 && (vm.heap.object(this.0).class != vm.heap.object(other.0).class
            || vm.heap.object(this.0).fields.entries().len() != vm.heap.object(other.0).fields.entries().len())
            ==> r matches Ok(false),
        T::infallible() ==> r is Ok,
{
    if !object_eq(vm, ops, this, other)? {
        return Ok(false);
    }
    if this.0 == 0 {
        return Ok(true);
    }
    let a = match &vm.heap.get(ObjectRefNN::new(this.0)).native {
        NativeData::Table(m) => m,
        _ => vstd::pervasive::unreached(),
    };
    let b = match &vm.heap.get(ObjectRefNN::new(other.0)).native {
        NativeData::Table(m) => m,
        _ => vstd::pervasive::unreached(),
    };
    proof {
        a.lemma_entries_are_contents::<T>();
        b.lemma_entries_are_contents::<T>();
    }
    if a.len() != b.len() {
        return Ok(false);
    }
    proof {
        assert(a@ == table(vm.heap, this.0));
    }
    let entries = a.to_vec();
    let n = entries.len();
    let mut i: usize = 0;
    while i < n
        invariant
            n == entries@.len(),
            entries@ == a.entries(),
            a.wf::<T>(),
            b.wf::<T>(),
            this.0 != 0,
            objects_equal::<T>(vm.heap, this, other),
            a@ == table(vm.heap, this.0),
            b@ == table(vm.heap, other.0),
            a@.dom().len() == b@.dom().len(),
            i <= n,
            forall|j: int| 0 <= j < i ==> (lookup::<T>(b@, #[trigger] entries@[j].0) matches Some(w) && T::spec_eq(entries@[j].1, w)),
        decreases n - i,
    {
        let (key, value) = entries[i];
        proof {
            a.lemma_entries_are_contents::<T>();
        }
        match b.get(ops, key)? {
            Some(w) => {
                if !ops.call_eq(value, w)? {
                    proof {
                        assert(a@.dom().contains(key) && a@[key] == value);
                    }
                    return Ok(false);
                }
            },
            None => {
                proof {
                    assert(a@.dom().contains(key));
                }
                return Ok(false);
            },
        }
        i = i + 1;
    }
    proof {
        assert forall|k: ObjectRef| #[trigger] a@.dom().contains(k) implies (lookup::<T>(b@, k) matches Some(w) && T::spec_eq(a@[k], w)) by {
            assert(keys_of(entries@).contains(k));
            let j = choose|j: int| 0 <= j < keys_of(entries@).len() && keys_of(entries@)[j] == k;
            assert(entries@[j].0 == k);
        }
    }
    Ok(true)
}


/// The value the map `this` holds under a key equal to `index`
/// (`std/core/Map`'s `__get__`, where the VM makes null of `None`).
pub fn map_get<T: KeyOps>(vm: &VM, ops: &T, this: ObjectRefNN, index: ObjectRef) -> (r: Result<Option<ObjectRef>, VMError>)
    requires
        has_table::<T>(vm.heap, this.addr()),
    ensures
        r matches Ok(v) ==> v == lookup::<T>(table(vm.heap, this.addr()), index),
        T::infallible() ==> r is Ok,
{
    match &vm.heap.get(this).native {
        NativeData::Table(m) => m.get(ops, index),
        _ => vstd::pervasive::unreached(),
    }
}

/// Stores `value` under `index` in the map `this` (`std/core/Map`'s
/// `__set__`): a key equal to `index` already held keeps its place and takes
/// the value.
pub fn map_set<T: KeyOps>(vm: &mut VM, ops: &T, this: ObjectRefNN, index: ObjectRef, value: ObjectRef) -> (r: Result<(), VMError>)
    requires
        has_table::<T>(old(vm).heap, this.addr()),
        old(vm).heap.object(this.addr()).native->Table_0.spec_len() < usize::MAX / 4,
    ensures
        final(vm).modules == old(vm).modules,
        has_table::<T>(final(vm).heap, this.addr()),
        final(vm).heap.same_except(&old(vm).heap, this.addr()),
        final(vm).heap.allocated() == old(vm).heap.allocated(),
        final(vm).heap.object(this.addr()).class == old(vm).heap.object(this.addr()).class,
        final(vm).heap.object(this.addr()).fields == old(vm).heap.object(this.addr()).fields,
        final(vm).heap.object(this.addr()).flags == old(vm).heap.object(this.addr()).flags,
        r is Ok ==> table(final(vm).heap, this.addr()) == insert_entry::<T>(table(old(vm).heap, this.addr()), index, value),
        r is Err ==> table(final(vm).heap, this.addr()) == table(old(vm).heap, this.addr()),
        T::infallible() ==> r is Ok,
{
    let o = vm.heap.get_mut(this);
    let mut native = NativeData::Empty;
    core::mem::swap(&mut o.native, &mut native);
    match native {
        NativeData::Table(mut m) => {
            let result = m.insert(ops, index, value);
            o.native = NativeData::Table(m);
            match result {
                Ok(_) => Ok(()),
                Err(e) => Err(e),
            }
        },
        _ => vstd::pervasive::unreached(),
    }
}

/// Reading a map after storing a value under a key gives the value for an
/// equal key, and what it gave before for any other.
pub proof fn lemma_map_get_after_set<T: KeyOps>(
    heap0: VMHeap,
    heap1: VMHeap,
    h: u64,
    k: ObjectRef,
    v: ObjectRef,
    q: ObjectRef,
)
    requires
        has_table::<T>(heap0, h),
        table(heap1, h) == insert_entry::<T>(table(heap0, h), k, v),
    ensures
        lookup::<T>(table(heap1, h), q) == if T::spec_eq(k, q) { Some(v) } else { lookup::<T>(table(heap0, h), q) },
{
    heap0.object(h).native->Table_0.lemma_entries_are_contents::<T>();
    crate::utils::map::lemma_lookup_after_insert::<T>(table(heap0, h), k, v, q);
}


/// The text of one entry: `(key, value)`.
pub open spec fn entry_text(p: (String, String)) -> Seq<char> {
    seq!['('] + p.0@ + seq![',', ' '] + p.1@ + seq![')']
}

/// The text `std/core/Map`'s `__to_string__` gives for the texts of its
/// entries: `[(k1, v1), (k2, v2)]`.
pub open spec fn map_text_spec(pairs: Seq<(String, String)>) -> Seq<char> {
    seq!['['] + crate::text::join(pairs.map_values(|p: (String, String)| entry_text(p)), seq![',', ' ']) + seq![']']
}

/// The text of a map from the texts of its keys and values, in table order
/// (see `map_text_spec`).
pub fn map_text(pairs: &Vec<(String, String)>) -> (r: String)
    ensures
        r@ == map_text_spec(pairs@),
{
    let mut items: Vec<String> = Vec::new();
    let n = pairs.len();
    let mut i: usize = 0;
    while i < n
        invariant
            n == pairs@.len(),
            i <= n,
            items@.len() == i,
            forall|j: int| 0 <= j < i ==> (#[trigger] items@[j])@ == entry_text(pairs@[j]),
        decreases n - i,
    {
        let mut item = String::from_str("(");
        item.append(pairs[i].0.as_str());
        item.append(", ");
        item.append(pairs[i].1.as_str());
        item.append(")");
        proof {
            reveal_strlit("(");
            reveal_strlit(", ");
            reveal_strlit(")");
            assert(item@ =~= entry_text(pairs@[i as int]));
        }
        items.push(item);
        i = i + 1;
    }
    let joined = crate::text::join_strings(&items, ", ");
    let mut text = String::from_str("[");
    text.append(joined.as_str());
    text.append("]");
    proof {
        reveal_strlit("[");
        reveal_strlit("]");
        reveal_strlit(", ");
        assert(crate::text::views(items@) =~= pairs@.map_values(|p: (String, String)| entry_text(p)));
        assert(", "@ =~= seq![',', ' ']);
        assert(joined@ == crate::text::join(pairs@.map_values(|p: (String, String)| entry_text(p)), seq![',', ' ']));
        assert(text@ =~= map_text_spec(pairs@));
    }
    text
}

/// `v` is how `std/core/Map` encodes a map whose entries have the JSON
/// `entries`: the list `[[key, value], ...]`.
pub open spec fn map_encoding(v: JsonValue, entries: Seq<(JsonValue, JsonValue)>) -> bool {
    v matches JsonValue::Array(items) && items@.len() == entries.len() && forall|k: int|
        0 <= k < entries.len() ==> (#[trigger] items@[k] matches JsonValue::Array(p) && p@.len() == 2 && p@[0]
            == entries[k].0 && p@[1] == entries[k].1)
}

/// The JSON element of a map whose entries have the JSON `entries`, in
/// table order.
pub fn map_to_json(entries: Vec<(JsonValue, JsonValue)>) -> (r: JsonValue)
    ensures
        r matches JsonValue::Object(ms) && ms@.len() == 2 && is_element(r, "std/core/Map"@, ms@[1].1) && map_encoding(
            ms@[1].1,
            entries@,
        ),
{
    let ghost all = entries@;
    let mut items: Vec<JsonValue> = Vec::new();
    for entry in it: entries
        invariant
            it.seq() == all,
            items@.len() == it.index(),
            forall|k: int| 0 <= k < items@.len() ==> (#[trigger] items@[k] matches JsonValue::Array(p) && p@.len() == 2
                && p@[0] == all[k].0 && p@[1] == all[k].1),
    {
        let (key, value) = entry;
        let mut pair: Vec<JsonValue> = Vec::new();
        pair.push(key);
        pair.push(value);
        items.push(JsonValue::Array(pair));
    }
    element_json(String::from_str("std/core/Map"), JsonValue::Array(items))
}

/// What decoding a map from its encoding asks of the VM.
pub enum MapFromJson<'a> {
    /// The encoding is not a list: the VM throws a parsing error.
    Malformed,
    /// The VM decodes the key and the value of each listed entry in order,
    /// then makes the map. When `complete` is false, a malformed entry
    /// follows them, and the VM throws a parsing error after decoding them.
    Entries { entries: Vec<(&'a JsonValue, &'a JsonValue)>, complete: bool },
}

impl<'a> MapFromJson<'a> {
    /// The message of the exception the VM throws after carrying out this
    /// plan: `Map from json parsing error` for a malformed encoding or a
    /// malformed entry, none when every entry is a pair.
    pub fn error(&self) -> (r: Option<&'static str>)
        ensures
            (*self is Malformed || (*self matches MapFromJson::Entries { complete, .. } && !complete)) <==> r is Some,
            r matches Some(m) ==> m@ == "Map from json parsing error"@,
    {
        match self {
            MapFromJson::Malformed => Some("Map from json parsing error"),
            MapFromJson::Entries { complete, .. } => if *complete {
                None
            } else {
                Some("Map from json parsing error")
            },
        }
    }
}

/// An entry of a map encoding: a pair.
pub open spec fn pair_ok(item: JsonValue) -> bool {
    item matches JsonValue::Array(p) && p@.len() == 2
}

/// `r` is what `std/core/Map`'s `__from_json__` makes of the encoding `v`:
/// malformed unless `v` is a list, and otherwise its entries up to the
/// first that is not a pair.
pub open spec fn map_decoded(v: JsonValue, r: MapFromJson) -> bool {
    if !(v is Array) {
        r is Malformed
    } else {
        let items = v->Array_0@;
        r matches MapFromJson::Entries { entries, complete } && entries@.len() <= items.len() && (forall|k: int|
            0 <= k < entries@.len() ==> pair_ok(#[trigger] items[k]) && *entries@[k].0 == items[k]->Array_0@[0]
                && *entries@[k].1 == items[k]->Array_0@[1]) && (complete <==> entries@.len() == items.len()) && (!complete
            ==> !pair_ok(items[entries@.len() as int]))
    }
}

/// Decodes a map from its encoding (see `map_decoded`).
pub fn map_from_json(v: &JsonValue) -> (r: MapFromJson<'_>)
    ensures
        map_decoded(*v, r),
{
    let items = match v {
        JsonValue::Array(items) => items,
        _ => return MapFromJson::Malformed,
    };
    let n = items.len();
    let mut entries: Vec<(&JsonValue, &JsonValue)> = Vec::new();
    let mut k: usize = 0;
    while k < n
        invariant
            n == items@.len(),
            k <= n,
            *v == JsonValue::Array(*items),
            entries@.len() == k,
            forall|j: int| 0 <= j < k ==> pair_ok(#[trigger] items@[j]) && *entries@[j].0 == items@[j]->Array_0@[0]
                && *entries@[j].1 == items@[j]->Array_0@[1],
        decreases n - k,
    {
        match &items[k] {
            JsonValue::Array(p) => {
                if p.len() == 2 {
                    entries.push((&p[0], &p[1]));
                } else {
                    return MapFromJson::Entries { entries, complete: false };
                }
            },
            _ => return MapFromJson::Entries { entries, complete: false },
        }
        k = k + 1;
    }
    MapFromJson::Entries { entries, complete: true }
}

/// Decoding the encoding of a map gives back all its entries, in order.
pub proof fn lemma_map_json_round_trip(v: JsonValue, entries: Seq<(JsonValue, JsonValue)>, r: MapFromJson)
    requires
        map_encoding(v, entries),
        map_decoded(v, r),
    ensures
        r matches MapFromJson::Entries { entries: es, complete } && complete && es@.len() == entries.len() && forall|k: int|
            0 <= k < entries.len() ==> *(#[trigger] es@[k]).0 == entries[k].0 && *es@[k].1 == entries[k].1,
{
    let items = v->Array_0@;
    let es = r->Entries_entries@;
    if es.len() < items.len() {
        assert(items[es.len() as int] matches JsonValue::Array(p) && p@.len() == 2);
    }
    assert forall|k: int| 0 <= k < entries.len() implies *(#[trigger] es[k]).0 == entries[k].0 && *es[k].1 == entries[k].1 by {
        assert(items[k] matches JsonValue::Array(p) && p@.len() == 2);
    }
}


/// The objects a map refers to, which the collector marks through the
/// map's `__mark__`: the key and then the value of each entry, in table
/// order, nulls left out.
pub open spec fn mark_targets(entries: Seq<Entry>) -> Seq<ObjectRef>
    decreases entries.len(),
{
    if entries.len() == 0 {
        Seq::empty()
    } else {
        let rest = mark_targets(entries.drop_last());
        let (k, v) = entries.last();
        let with_key = if k.0 != 0 { rest.push(k) } else { rest };
        if v.0 != 0 { with_key.push(v) } else { with_key }
    }
}

/// The objects the map `this` refers to (see `mark_targets`).
pub fn map_mark_targets(vm: &VM, this: ObjectRefNN) -> (r: Vec<ObjectRef>)
    requires
        vm.heap.live(this.addr()),
        vm.heap.object(this.addr()).native is Table,
    ensures
        r@ == mark_targets(vm.heap.object(this.addr()).native->Table_0.entries()),
{
    let entries = match &vm.heap.get(this).native {
        NativeData::Table(m) => m.to_vec(),
        _ => vstd::pervasive::unreached(),
    };
    let mut out: Vec<ObjectRef> = Vec::new();
    let n = entries.len();
    let mut i: usize = 0;
    while i < n
        invariant
            n == entries@.len(),
            i <= n,
            out@ == mark_targets(entries@.take(i as int)),
        decreases n - i,
    {
        let (k, v) = entries[i];
        proof {
            assert(entries@.take(i + 1).drop_last() =~= entries@.take(i as int));
        }
        if k.0 != 0 {
            out.push(k);
        }
        if v.0 != 0 {
            out.push(v);
        }
        i = i + 1;
    }
    proof {
        assert(entries@.take(n as int) =~= entries@);
    }
    out
}

} // verus!
