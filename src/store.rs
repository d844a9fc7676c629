//! The property store: `(interface, path)` to value, interface major version and ownership.
use vstd::prelude::*;
use crate::interface::Ownership;
use crate::text::str_eq;
use crate::types::{AstarteType, AstarteValue};

verus! {

/// The coordinates of an interface that the store needs.
#[derive(Debug, Clone, PartialEq, Eq)]
pub struct StoreInterfaceData {
    pub name: String,
    pub ownership: Ownership,
}

impl StoreInterfaceData {
    pub fn new(name: &str, ownership: Ownership) -> (r: StoreInterfaceData)
        ensures
            r.name@ == name@,
            r.ownership == ownership,
    {
        StoreInterfaceData { name: String::from_str(name), ownership }
    }
}

/// A stored property.
#[derive(Debug)]
pub struct StoredProp {
    pub interface: String,
    pub path: String,
    pub value: AstarteType,
    pub interface_major: i32,
    pub ownership: Ownership,
}

impl PartialEq for StoredProp {
    fn eq(&self, other: &StoredProp) -> (r: bool) {
        self.interface == other.interface && self.path == other.path && self.value == other.value
            && self.interface_major == other.interface_major && self.ownership == other.ownership
    }
}

impl vstd::std_specs::cmp::PartialEqSpecImpl for StoredProp {
    open spec fn obeys_eq_spec() -> bool {
        true
    }

    open spec fn eq_spec(&self, other: &StoredProp) -> bool {
        key_of(*self) == key_of(*other) && entry_of(*self) == entry_of(*other)
    }
}

impl StoredProp {
    /// The property of `interface` at `path` holding `value`.
    pub fn from_mapping(interface: &crate::interface::Interface, path: &crate::path::MappingPath, value: &AstarteType) -> (r: StoredProp)
        ensures
            r.interface@ == interface@.name,
            r.path@ == path@,
            r.value@ == value@,
            r.interface_major == interface@.version_major,
            r.ownership == interface@.ownership,
    {
        StoredProp {
            interface: String::from_str(interface.interface_name()),
            path: String::from_str(path.as_str()),
            value: value.clone(),
            interface_major: interface.version_major(),
            ownership: interface.ownership(),
        }
    }
}

/// A device property that may have been unset: `value` is `None` for a tombstone.
#[derive(Debug)]
pub struct OptStoredProp {
    pub interface: String,
    pub path: String,
    pub value: Option<AstarteType>,
    pub interface_major: i32,
    pub ownership: Ownership,
}

/// What the store holds for one key.
pub struct PropEntry {
    pub value: AstarteValue,
    pub interface_major: i32,
    pub ownership: Ownership,
}

pub type PropKey = (Seq<char>, Seq<char>);

pub type PropMap = Map<PropKey, PropEntry>;

pub open spec fn key_of(p: StoredProp) -> PropKey {
    (p.interface@, p.path@)
}

pub open spec fn entry_of(p: StoredProp) -> PropEntry {
    PropEntry { value: p.value@, interface_major: p.interface_major, ownership: p.ownership }
}

/// A tombstone: the property was unset and the unset has not been collected yet.
pub open spec fn is_tombstone(e: PropEntry) -> bool {
    e.value is Unset
}

/// `r` lists, once each and with their entries, exactly the keys of `m` that satisfy `sel`.
pub open spec fn lists(r: Seq<StoredProp>, m: PropMap, sel: spec_fn(PropKey, PropEntry) -> bool) -> bool {
    &&& forall|i: int| 0 <= i < r.len() ==> m.contains_key(key_of(#[trigger] r[i]))
        && m[key_of(r[i])] == entry_of(r[i]) && sel(key_of(r[i]), entry_of(r[i]))
    &&& forall|i: int, j: int| 0 <= i < j < r.len() ==> key_of(#[trigger] r[i]) != key_of(#[trigger] r[j])
    &&& forall|k: PropKey| #[trigger] m.contains_key(k) && sel(k, m[k]) ==> exists|i: int|
        0 <= i < r.len() && key_of(#[trigger] r[i]) == k
}

/// Device-owned entries, tombstones included, with tombstones listed as `None`.
pub open spec fn lists_with_unset(r: Seq<OptStoredProp>, m: PropMap) -> bool {
    &&& forall|i: int| 0 <= i < r.len() ==> {
        let p = #[trigger] r[i];
        let k = (p.interface@, p.path@);
        &&& m.contains_key(k)
        &&& m[k].ownership == Ownership::Device
        &&& p.ownership == Ownership::Device
        &&& p.interface_major == m[k].interface_major
        &&& match p.value {
            Some(v) => v@ == m[k].value && !is_tombstone(m[k]),
            None => is_tombstone(m[k]),
        }
    }
    &&& forall|i: int, j: int| 0 <= i < j < r.len() ==> ((#[trigger] r[i]).interface@, r[i].path@) != (
        (#[trigger] r[j]).interface@,
        r[j].path@,
    )
    &&& forall|k: PropKey| #[trigger] m.contains_key(k) && m[k].ownership == Ownership::Device
        ==> exists|i: int| 0 <= i < r.len() && ((#[trigger] r[i]).interface@, r[i].path@) == k
}

/// What `load_prop` leaves in the store.
pub open spec fn after_load(m: PropMap, k: PropKey, major: i32) -> PropMap {
    if m.contains_key(k) && m[k].interface_major != major {
        m.remove(k)
    } else {
        m
    }
}

/// What `load_prop` returns.
pub open spec fn loaded(m: PropMap, k: PropKey, major: i32) -> Option<AstarteValue> {
    if m.contains_key(k) && m[k].interface_major == major && !is_tombstone(m[k]) {
        Some(m[k].value)
    } else {
        None
    }
}

/// What `unset_prop` leaves in the store: a device property becomes a tombstone, a server
/// property goes.
pub open spec fn after_unset(m: PropMap, k: PropKey) -> PropMap {
    if m.contains_key(k) {
        if m[k].ownership == Ownership::Device {
            m.insert(k, PropEntry { value: AstarteValue::Unset, ..m[k] })
        } else {
            m.remove(k)
        }
    } else {
        m
    }
}

pub open spec fn without_interface(m: PropMap, name: Seq<char>) -> PropMap {
    m.restrict(m.dom().filter(|k: PropKey| k.0 != name))
}

/// Storage for the properties of a device.
pub trait PropertyStore {
    /// The stored properties.
    spec fn props(&self) -> PropMap;

    /// The internal invariant of the store.
    spec fn wf(&self) -> bool;

    /// Stores a property, replacing the one with the same interface and path.
    fn store_prop(&mut self, prop: &StoredProp)
        requires
            old(self).wf(),
        ensures
            final(self).wf(),
            final(self).props() == old(self).props().insert(key_of(*prop), entry_of(*prop)),
    ;

    /// Loads a property. A property stored under another interface major version is deleted
    /// and `None` is returned; a tombstone loads as `None`.
    fn load_prop(&mut self, interface: &StoreInterfaceData, path: &str, interface_major: i32) -> (r: Option<AstarteType>)
        requires
            old(self).wf(),
        ensures
            final(self).wf(),
            final(self).props() == after_load(old(self).props(), (interface.name@, path@), interface_major),
            match r {
                Some(v) => loaded(old(self).props(), (interface.name@, path@), interface_major) == Some(v@),
                None => loaded(old(self).props(), (interface.name@, path@), interface_major) is None,
            },
    ;

    /// Unsets a property (see [`after_unset`]).
    fn unset_prop(&mut self, interface: &StoreInterfaceData, path: &str)
        requires
            old(self).wf(),
        ensures
            final(self).wf(),
            final(self).props() == after_unset(old(self).props(), (interface.name@, path@)),
    ;

    /// Deletes a property.
    fn delete_prop(&mut self, interface: &str, path: &str)
        requires
            old(self).wf(),
        ensures
            final(self).wf(),
            final(self).props() == old(self).props().remove((interface@, path@)),
    ;

    /// Deletes every property.
    fn clear(&mut self)
        requires
            old(self).wf(),
        ensures
            final(self).wf(),
            final(self).props() == PropMap::empty(),
    ;

    /// Every property but the tombstones.
    fn load_all_props(&self) -> (r: Vec<StoredProp>)
        requires
            self.wf(),
        ensures
            lists(r@, self.props(), |k: PropKey, e: PropEntry| !is_tombstone(e)),
    ;

    /// The device-owned properties but the tombstones.
    fn device_props(&self) -> (r: Vec<StoredProp>)
        requires
            self.wf(),
        ensures
            lists(r@, self.props(), |k: PropKey, e: PropEntry| !is_tombstone(e) && e.ownership == Ownership::Device),
    ;

    /// The server-owned properties but the tombstones.
    fn server_props(&self) -> (r: Vec<StoredProp>)
        requires
            self.wf(),
        ensures
            lists(r@, self.props(), |k: PropKey, e: PropEntry| !is_tombstone(e) && e.ownership == Ownership::Server),
    ;

    /// The properties of one interface but the tombstones.
    fn interface_props(&self, interface: &StoreInterfaceData) -> (r: Vec<StoredProp>)
        requires
            self.wf(),
        ensures
            lists(r@, self.props(), |k: PropKey, e: PropEntry| !is_tombstone(e) && k.0 == interface.name@),
    ;

    /// Deletes every property of one interface.
    fn delete_interface(&mut self, interface: &StoreInterfaceData)
        requires
            old(self).wf(),
        ensures
            final(self).wf(),
            final(self).props() == without_interface(old(self).props(), interface.name@),
    ;

    /// The device-owned properties, tombstones included.
    fn device_props_with_unset(&self) -> (r: Vec<OptStoredProp>)
        requires
            self.wf(),
        ensures
            lists_with_unset(r@, self.props()),
    ;
}

/// A stored property loads back under its major version; under another major version it loads
/// as nothing and is deleted.
pub proof fn lemma_store_then_load(m: PropMap, p: StoredProp, other_major: i32)
    requires
        !(p.value@ is Unset),
        other_major != p.interface_major,
    ensures
        loaded(m.insert(key_of(p), entry_of(p)), key_of(p), p.interface_major) == Some(p.value@),
        after_load(m.insert(key_of(p), entry_of(p)), key_of(p), p.interface_major) == m.insert(key_of(p), entry_of(p)),
        loaded(m.insert(key_of(p), entry_of(p)), key_of(p), other_major) is None,
        !after_load(m.insert(key_of(p), entry_of(p)), key_of(p), other_major).contains_key(key_of(p)),
{
}

/// Storing is an upsert: a second store under the same interface and path replaces the first,
/// the key stays once in the store, and the second value loads back.
pub proof fn lemma_store_is_upsert(m: PropMap, p: StoredProp, q: StoredProp)
    requires
        key_of(p) == key_of(q),
        !(q.value@ is Unset),
    ensures
        m.insert(key_of(p), entry_of(p)).insert(key_of(q), entry_of(q)) == m.insert(key_of(q), entry_of(q)),
        loaded(m.insert(key_of(p), entry_of(p)).insert(key_of(q), entry_of(q)), key_of(q), q.interface_major) == Some(q.value@),
{
    assert(m.insert(key_of(p), entry_of(p)).insert(key_of(q), entry_of(q)) =~= m.insert(key_of(q), entry_of(q)));
}

/// Unsetting a stored device property leaves a tombstone under the same major version, which
/// loads as nothing.
pub proof fn lemma_unset_leaves_tombstone(m: PropMap, k: PropKey, major: i32)
    requires
        m.contains_key(k),
        m[k].ownership == Ownership::Device,
    ensures
        after_unset(m, k).contains_key(k),
        is_tombstone(after_unset(m, k)[k]),
        after_unset(m, k)[k].interface_major == m[k].interface_major,
        after_unset(m, k)[k].ownership == Ownership::Device,
        loaded(after_unset(m, k), k, major) is None,
{
}

/// Copies a stored property.
pub fn copy_prop(p: &StoredProp) -> (r: StoredProp)
    ensures
        key_of(r) == key_of(*p),
        entry_of(r) == entry_of(*p),
{
    StoredProp {
        interface: p.interface.clone(),
        path: p.path.clone(),
        value: p.value.clone(),
        interface_major: p.interface_major,
        ownership: p.ownership,
    }
}

/// Keys are unique.
pub open spec fn unique_keys(v: Seq<StoredProp>) -> bool {
    forall|i: int, j: int| 0 <= i < j < v.len() ==> key_of(#[trigger] v[i]) != key_of(#[trigger] v[j])
}

/// The map that a list with unique keys stands for.
pub open spec fn model_of(v: Seq<StoredProp>) -> PropMap {
    Map::new(
        |k: PropKey| exists|i: int| 0 <= i < v.len() && key_of(#[trigger] v[i]) == k,
        |k: PropKey| entry_of(v[choose|i: int| 0 <= i < v.len() && key_of(#[trigger] v[i]) == k]),
    )
}

pub proof fn lemma_model_at(v: Seq<StoredProp>, i: int)
    requires
        unique_keys(v),
        0 <= i < v.len(),
    ensures
        model_of(v).contains_key(key_of(v[i])),
        model_of(v)[key_of(v[i])] == entry_of(v[i]),
{
    let k = key_of(v[i]);
    assert(model_of(v).dom().contains(k));
    let c = choose|j: int| 0 <= j < v.len() && key_of(#[trigger] v[j]) == k;
    if c != i {
        if c < i {
            assert(key_of(v[c]) != key_of(v[i]));
        } else {
            assert(key_of(v[i]) != key_of(v[c]));
        }
    }
}

pub proof fn lemma_model_push(v: Seq<StoredProp>, p: StoredProp)
    requires
        unique_keys(v),
        !model_of(v).contains_key(key_of(p)),
    ensures
        unique_keys(v.push(p)),
        model_of(v.push(p)) == model_of(v).insert(key_of(p), entry_of(p)),
{
    let w = v.push(p);
    assert forall|i: int, j: int| 0 <= i < j < w.len() implies key_of(#[trigger] w[i]) != key_of(#[trigger] w[j]) by {
        if j == v.len() {
            assert(w[i] == v[i]);
            if key_of(v[i]) == key_of(p) {
                assert(model_of(v).dom().contains(key_of(p)));
            }
        } else {
            assert(w[i] == v[i] && w[j] == v[j]);
        }
    }
    assert forall|k: PropKey| model_of(w).contains_key(k) <==> model_of(v).insert(key_of(p), entry_of(p)).contains_key(k) by {
        if model_of(v).contains_key(k) {
            let i = choose|i: int| 0 <= i < v.len() && key_of(#[trigger] v[i]) == k;
            assert(w[i] == v[i]);
        }
        if model_of(w).contains_key(k) {
            let i = choose|i: int| 0 <= i < w.len() && key_of(#[trigger] w[i]) == k;
            if i < v.len() {
                assert(w[i] == v[i]);
            }
        }
        if k == key_of(p) {
            assert(key_of(w[v.len() as int]) == k);
        }
    }
    assert forall|k: PropKey| #[trigger] model_of(w).contains_key(k) implies model_of(w)[k] == model_of(v).insert(key_of(p), entry_of(p))[k] by {
        let i = choose|i: int| 0 <= i < w.len() && key_of(#[trigger] w[i]) == k;
        lemma_model_at(w, i);
        if i < v.len() {
            assert(w[i] == v[i]);
            lemma_model_at(v, i);
        }
    }
    assert(model_of(w) =~= model_of(v).insert(key_of(p), entry_of(p)));
}

pub proof fn lemma_model_update(v: Seq<StoredProp>, i: int, p: StoredProp)
    requires
        unique_keys(v),
        0 <= i < v.len(),
        key_of(v[i]) == key_of(p),
    ensures
        unique_keys(v.update(i, p)),
        model_of(v.update(i, p)) == model_of(v).insert(key_of(p), entry_of(p)),
{
    let w = v.update(i, p);
    assert forall|a: int, b: int| 0 <= a < b < w.len() implies key_of(#[trigger] w[a]) != key_of(#[trigger] w[b]) by {
        assert(key_of(w[a]) == key_of(v[a]));
        assert(key_of(w[b]) == key_of(v[b]));
    }
    assert forall|k: PropKey| model_of(w).contains_key(k) <==> model_of(v).insert(key_of(p), entry_of(p)).contains_key(k) by {
        if model_of(v).contains_key(k) {
            let j = choose|j: int| 0 <= j < v.len() && key_of(#[trigger] v[j]) == k;
            assert(key_of(w[j]) == key_of(v[j]));
        }
        if model_of(w).contains_key(k) {
            let j = choose|j: int| 0 <= j < w.len() && key_of(#[trigger] w[j]) == k;
            assert(key_of(w[j]) == key_of(v[j]));
        }
        if k == key_of(p) {
            assert(key_of(v[i]) == k);
        }
    }
    assert forall|k: PropKey| #[trigger] model_of(w).contains_key(k) implies model_of(w)[k] == model_of(v).insert(key_of(p), entry_of(p))[k] by {
        let j = choose|j: int| 0 <= j < w.len() && key_of(#[trigger] w[j]) == k;
        lemma_model_at(w, j);
        if j != i {
            assert(w[j] == v[j]);
            lemma_model_at(v, j);
        }
    }
    assert(model_of(w) =~= model_of(v).insert(key_of(p), entry_of(p)));
}

pub proof fn lemma_model_remove(v: Seq<StoredProp>, i: int)
    requires
        unique_keys(v),
        0 <= i < v.len(),
    ensures
        unique_keys(v.remove(i)),
        model_of(v.remove(i)) == model_of(v).remove(key_of(v[i])),
{
    let w = v.remove(i);
    assert forall|a: int, b: int| 0 <= a < b < w.len() implies key_of(#[trigger] w[a]) != key_of(#[trigger] w[b]) by {
        let a2 = if a < i { a } else { a + 1 };
        let b2 = if b < i { b } else { b + 1 };
        assert(w[a] == v[a2] && w[b] == v[b2]);
    }
    assert forall|k: PropKey| model_of(w).contains_key(k) <==> model_of(v).remove(key_of(v[i])).contains_key(k) by {
        if model_of(w).contains_key(k) {
            let j = choose|j: int| 0 <= j < w.len() && key_of(#[trigger] w[j]) == k;
            let j2 = if j < i { j } else { j + 1 };
            assert(w[j] == v[j2]);
        }
        if model_of(v).contains_key(k) && k != key_of(v[i]) {
            let j = choose|j: int| 0 <= j < v.len() && key_of(#[trigger] v[j]) == k;
            assert(j != i);
            let j3 = if j < i { j } else { j - 1 };
            assert(w[j3] == v[j]);
        }
    }
    assert forall|k: PropKey| #[trigger] model_of(w).contains_key(k) implies model_of(w)[k] == model_of(v)[k] by {
        let j = choose|j: int| 0 <= j < w.len() && key_of(#[trigger] w[j]) == k;
        lemma_model_at(w, j);
        let j2 = if j < i { j } else { j + 1 };
        assert(w[j] == v[j2]);
        lemma_model_at(v, j2);
    }
    assert(model_of(w) =~= model_of(v).remove(key_of(v[i])));
}

/// A property store held in memory.
#[derive(Debug)]
pub struct MemoryStore {
    props: Vec<StoredProp>,
}

impl MemoryStore {
    pub fn new() -> (r: MemoryStore)
        ensures
            r.props() == PropMap::empty(),
            r.wf(),
    {
        let r = MemoryStore { props: Vec::new() };
        assert(model_of(r.props@) =~= PropMap::empty());
        r
    }

    /// Position of the property with this interface and path.
    fn find(&self, interface: &str, path: &str) -> (r: Option<usize>)
        requires
            self.wf(),
        ensures
            r matches Some(i) ==> i < self.props@.len() && key_of(self.props@[i as int]) == (interface@, path@),
            r is None ==> !self.props().contains_key((interface@, path@)),
    {
        let mut i: usize = 0;
        while i < self.props.len()
            invariant
                i <= self.props@.len(),
                forall|j: int| 0 <= j < i ==> key_of(#[trigger] self.props@[j]) != (interface@, path@),
            decreases self.props@.len() - i,
        {
            let p = &self.props[i];
            if str_eq(p.interface.as_str(), interface) && str_eq(p.path.as_str(), path) {
                return Some(i);
            }
            i = i + 1;
        }
        None
    }

    /// Every stored entry that `keep` selects.
    fn select(&self, sel: Ghost<spec_fn(PropKey, PropEntry) -> bool>, tombstones: bool, ownership: Option<Ownership>, interface: Option<&str>) -> (r: Vec<StoredProp>)
        requires
            self.wf(),
            forall|k: PropKey, e: PropEntry| #[trigger] sel@(k, e) == ((tombstones || !is_tombstone(e))
                && (ownership matches Some(o) ==> e.ownership == o)
                && (interface matches Some(n) ==> k.0 == n@)),
        ensures
            lists(r@, self.props(), sel@),
    {
        let mut r: Vec<StoredProp> = Vec::new();
        let mut i: usize = 0;
        while i < self.props.len()
            invariant
                self.wf(),
                i <= self.props@.len(),
                forall|k: PropKey, e: PropEntry| #[trigger] sel@(k, e) == ((tombstones || !is_tombstone(e))
                    && (ownership matches Some(o) ==> e.ownership == o)
                    && (interface matches Some(n) ==> k.0 == n@)),
                forall|a: int| 0 <= a < r@.len() ==> exists|b: int| 0 <= b < i && key_of(#[trigger] r@[a]) == key_of(#[trigger] self.props@[b])
                    && entry_of(r@[a]) == entry_of(self.props@[b]),
                forall|a: int| 0 <= a < r@.len() ==> sel@(key_of(#[trigger] r@[a]), entry_of(r@[a])),
                forall|a: int, b: int| 0 <= a < b < r@.len() ==> key_of(#[trigger] r@[a]) != key_of(#[trigger] r@[b]),
                forall|b: int| 0 <= b < i && sel@(key_of(#[trigger] self.props@[b]), entry_of(self.props@[b])) ==> exists|a: int|
                    0 <= a < r@.len() && key_of(#[trigger] r@[a]) == key_of(self.props@[b]),
                forall|a: int| 0 <= a < r@.len() ==> forall|b: int| i <= b < self.props@.len() ==> key_of(#[trigger] r@[a]) != key_of(#[trigger] self.props@[b]),
            decreases self.props@.len() - i,
        {
            let p = &self.props[i];
            let keep = (tombstones || !p.value.is_unset()) && match ownership {
                Some(o) => p.ownership == o,
                None => true,
            } && match interface {
                Some(n) => str_eq(p.interface.as_str(), n),
                None => true,
            };
            if keep {
                let ghost r0 = r@;
                r.push(copy_prop(p));
                proof {
                    assert(r@[r0.len() as int] == r@.last());
                    assert forall|a: int| 0 <= a < r@.len() implies exists|b: int| 0 <= b < i + 1 && key_of(#[trigger] r@[a]) == key_of(#[trigger] self.props@[b])
                        && entry_of(r@[a]) == entry_of(self.props@[b]) by {
                        if a < r0.len() {
                            assert(r@[a] == r0[a]);
                        } else {
                            assert(key_of(r@[a]) == key_of(self.props@[i as int]));
                        }
                    }
                    assert forall|a: int| 0 <= a < r@.len() implies sel@(key_of(#[trigger] r@[a]), entry_of(r@[a])) by {
                        if a < r0.len() {
                            assert(r@[a] == r0[a]);
                        }
                    }
                    assert forall|a: int, b: int| 0 <= a < b < r@.len() implies key_of(#[trigger] r@[a]) != key_of(#[trigger] r@[b]) by {
                        assert(r@[a] == r0[a]);
                        if b < r0.len() {
                            assert(r@[b] == r0[b]);
                        }
                    }
                    assert forall|b: int| 0 <= b < i + 1 && sel@(key_of(#[trigger] self.props@[b]), entry_of(self.props@[b])) implies exists|a: int|
                        0 <= a < r@.len() && key_of(#[trigger] r@[a]) == key_of(self.props@[b]) by {
                        if b < i {
                            let a = choose|a: int| 0 <= a < r0.len() && key_of(#[trigger] r0[a]) == key_of(self.props@[b]);
                            assert(r@[a] == r0[a]);
                        } else {
                            assert(key_of(r@[r0.len() as int]) == key_of(self.props@[b]));
                        }
                    }
                    assert forall|a: int| 0 <= a < r@.len() implies forall|b: int| i + 1 <= b < self.props@.len() ==> key_of(#[trigger] r@[a]) != key_of(#[trigger] self.props@[b]) by {
                        if a < r0.len() {
                            assert(r@[a] == r0[a]);
                        } else {
                            assert forall|b: int| i + 1 <= b < self.props@.len() implies key_of(r@[a]) != key_of(#[trigger] self.props@[b]) by {
                                assert(key_of(self.props@[i as int]) != key_of(self.props@[b]));
                            }
                        }
                    }
                }
            }
            i = i + 1;
        }
        proof {
            assert forall|a: int| 0 <= a < r@.len() implies self.props().contains_key(key_of(#[trigger] r@[a]))
                && self.props()[key_of(r@[a])] == entry_of(r@[a]) && sel@(key_of(r@[a]), entry_of(r@[a])) by {
                let b = choose|b: int| 0 <= b < self.props@.len() && key_of(#[trigger] r@[a]) == key_of(#[trigger] self.props@[b])
                    && entry_of(r@[a]) == entry_of(self.props@[b]);
                lemma_model_at(self.props@, b);
            }
            assert forall|k: PropKey| #[trigger] self.props().contains_key(k) && sel@(k, self.props()[k]) implies exists|a: int|
                0 <= a < r@.len() && key_of(#[trigger] r@[a]) == k by {
                let b = choose|b: int| 0 <= b < self.props@.len() && key_of(#[trigger] self.props@[b]) == k;
                lemma_model_at(self.props@, b);
            }
        }
        r
    }
}

impl PropertyStore for MemoryStore {
    closed spec fn props(&self) -> PropMap {
        model_of(self.props@)
    }

    closed spec fn wf(&self) -> bool {
        unique_keys(self.props@)
    }

    fn store_prop(&mut self, prop: &StoredProp) {
        let ghost v = self.props@;
        match self.find(prop.interface.as_str(), prop.path.as_str()) {
            Some(i) => {
                self.props.set(i, copy_prop(prop));
                proof {
                    lemma_model_update(v, i as int, self.props@[i as int]);
                    assert(self.props@ == v.update(i as int, self.props@[i as int]));
                }
            },
            None => {
                self.props.push(copy_prop(prop));
                proof {
                    lemma_model_push(v, self.props@.last());
                    assert(self.props@ == v.push(self.props@.last()));
                }
            },
        }
    }

    fn load_prop(&mut self, interface: &StoreInterfaceData, path: &str, interface_major: i32) -> (r: Option<AstarteType>) {
        let ghost v = self.props@;
        match self.find(interface.name.as_str(), path) {
            Some(i) => {
                proof {
                    lemma_model_at(v, i as int);
                }
                if self.props[i].interface_major != interface_major {
                    self.props.remove(i);
                    proof {
                        lemma_model_remove(v, i as int);
                    }
                    None
                } else if self.props[i].value.is_unset() {
                    None
                } else {
                    Some(self.props[i].value.clone())
                }
            },
            None => None,
        }
    }

    fn unset_prop(&mut self, interface: &StoreInterfaceData, path: &str) {
        let ghost v = self.props@;
        match self.find(interface.name.as_str(), path) {
            Some(i) => {
                proof {
                    lemma_model_at(v, i as int);
                }
                if self.props[i].ownership == Ownership::Device {
                    let p = StoredProp {
                        interface: self.props[i].interface.clone(),
                        path: self.props[i].path.clone(),
                        value: AstarteType::Unset,
                        interface_major: self.props[i].interface_major,
                        ownership: self.props[i].ownership,
                    };
                    self.props.set(i, p);
                    proof {
                        lemma_model_update(v, i as int, self.props@[i as int]);
                        assert(self.props@ == v.update(i as int, self.props@[i as int]));
                        assert(entry_of(self.props@[i as int]) == PropEntry { value: AstarteValue::Unset, ..model_of(v)[(interface.name@, path@)] });
                    }
                } else {
                    self.props.remove(i);
                    proof {
                        lemma_model_remove(v, i as int);
                    }
                }
            },
            None => {},
        }
    }

    fn delete_prop(&mut self, interface: &str, path: &str) {
        let ghost v = self.props@;
        match self.find(interface, path) {
            Some(i) => {
                self.props.remove(i);
                proof {
                    lemma_model_remove(v, i as int);
                }
            },
            None => {
                assert(model_of(v).remove((interface@, path@)) =~= model_of(v));
            },
        }
    }

    fn clear(&mut self) {
        self.props.clear();
        assert(model_of(self.props@) =~= PropMap::empty());
    }

    fn load_all_props(&self) -> (r: Vec<StoredProp>) {
        self.select(Ghost(|k: PropKey, e: PropEntry| !is_tombstone(e)), false, None, None)
    }

    fn device_props(&self) -> (r: Vec<StoredProp>) {
        self.select(
            Ghost(|k: PropKey, e: PropEntry| !is_tombstone(e) && e.ownership == Ownership::Device),
            false,
            Some(Ownership::Device),
            None,
        )
    }

    fn server_props(&self) -> (r: Vec<StoredProp>) {
        self.select(
            Ghost(|k: PropKey, e: PropEntry| !is_tombstone(e) && e.ownership == Ownership::Server),
            false,
            Some(Ownership::Server),
            None,
        )
    }

    fn interface_props(&self, interface: &StoreInterfaceData) -> (r: Vec<StoredProp>) {
        self.select(
            Ghost(|k: PropKey, e: PropEntry| !is_tombstone(e) && k.0 == interface.name@),
            false,
            None,
            Some(interface.name.as_str()),
        )
    }

    fn delete_interface(&mut self, interface: &StoreInterfaceData) {
        let ghost m0 = model_of(self.props@);
        let mut done = false;
        while !done
            invariant
                self.wf(),
                without_interface(model_of(self.props@), interface.name@) == without_interface(m0, interface.name@),
                done ==> forall|k: PropKey| #[trigger] self.props().contains_key(k) ==> k.0 != interface.name@,
            decreases self.props@.len() + (if done { 0int } else { 1int }),
        {
            match self.find_interface(interface.name.as_str()) {
                Some(i) => {
                    let ghost v = self.props@;
                    self.props.remove(i);
                    proof {
                        lemma_model_remove(v, i as int);
                        assert(without_interface(model_of(self.props@), interface.name@) =~= without_interface(model_of(v), interface.name@));
                    }
                },
                None => {
                    done = true;
                },
            }
        }
        proof {
            let m = model_of(self.props@);
            assert(m == self.props());
            let f = m.dom().filter(|k: PropKey| k.0 != interface.name@);
            assert forall|k: PropKey| #[trigger] m.dom().contains(k) implies f.contains(k) by {
                assert(self.props().contains_key(k));
            }
            assert(m.dom().filter(|k: PropKey| k.0 != interface.name@) =~= m.dom());
            assert(without_interface(m, interface.name@) =~= m);
        }
    }

    fn device_props_with_unset(&self) -> (r: Vec<OptStoredProp>) {
        let all = self.select(
            Ghost(|k: PropKey, e: PropEntry| e.ownership == Ownership::Device),
            true,
            Some(Ownership::Device),
            None,
        );
        let mut r: Vec<OptStoredProp> = Vec::new();
        let mut i: usize = 0;
        while i < all.len()
            invariant
                i <= all@.len(),
                r@.len() == i,
                lists(all@, self.props(), |k: PropKey, e: PropEntry| e.ownership == Ownership::Device),
                forall|a: int| 0 <= a < i ==> (#[trigger] r@[a]).interface@ == all@[a].interface@
                    && r@[a].path@ == all@[a].path@ && r@[a].interface_major == all@[a].interface_major
                    && r@[a].ownership == all@[a].ownership
                    && match r@[a].value {
                        Some(v) => v@ == all@[a].value@ && !(all@[a].value@ is Unset),
                        None => all@[a].value@ is Unset,
                    },
            decreases all@.len() - i,
        {
            let p = &all[i];
            let value = if p.value.is_unset() { None } else { Some(p.value.clone()) };
            r.push(OptStoredProp {
                interface: p.interface.clone(),
                path: p.path.clone(),
                value,
                interface_major: p.interface_major,
                ownership: p.ownership,
            });
            i = i + 1;
        }
        proof {
            let m = self.props();
            assert forall|a: int| 0 <= a < r@.len() implies {
                let p = #[trigger] r@[a];
                let k = (p.interface@, p.path@);
                &&& m.contains_key(k)
                &&& m[k].ownership == Ownership::Device
                &&& p.ownership == Ownership::Device
                &&& p.interface_major == m[k].interface_major
                &&& match p.value {
                    Some(v) => v@ == m[k].value && !is_tombstone(m[k]),
                    None => is_tombstone(m[k]),
                }
            } by {
                assert(key_of(all@[a]) == (r@[a].interface@, r@[a].path@));
            }
            assert forall|a: int, b: int| 0 <= a < b < r@.len() implies ((#[trigger] r@[a]).interface@, r@[a].path@) != (
                (#[trigger] r@[b]).interface@,
                r@[b].path@,
            ) by {
                assert(key_of(all@[a]) != key_of(all@[b]));
            }
            assert forall|k: PropKey| #[trigger] m.contains_key(k) && m[k].ownership == Ownership::Device
                implies exists|a: int| 0 <= a < r@.len() && ((#[trigger] r@[a]).interface@, r@[a].path@) == k by {
                let a = choose|a: int| 0 <= a < all@.len() && key_of(#[trigger] all@[a]) == k;
                assert((r@[a].interface@, r@[a].path@) == k);
            }
        }
        r
    }
}

impl MemoryStore {
    /// Position of some property of the interface `name`.
    fn find_interface(&self, name: &str) -> (r: Option<usize>)
        requires
            self.wf(),
        ensures
            r matches Some(i) ==> i < self.props@.len() && self.props@[i as int].interface@ == name@,
            r is None ==> forall|k: PropKey| #[trigger] self.props().contains_key(k) ==> k.0 != name@,
    {
        let mut i: usize = 0;
        while i < self.props.len()
            invariant
                i <= self.props@.len(),
                forall|j: int| 0 <= j < i ==> (#[trigger] self.props@[j]).interface@ != name@,
            decreases self.props@.len() - i,
        {
            if str_eq(self.props[i].interface.as_str(), name) {
                return Some(i);
            }
            i = i + 1;
        }
        None
    }
}

} // verus!
