//! The device runtime: the send pipeline (validate, check the stored property, publish, store)
//! and the receive pipeline (resolve, decode, store, deliver), interface registration and the
//! purge of properties.
use vstd::prelude::*;
use crate::connection::{
    data_topic, interface_filter, purged, qos_of, spec_qos_of, MqttAction, PublishPayload, Qos,
};
use crate::error::Error;
use crate::interface::{
    resolve, Aggregation as InterfaceAggregation, Interface, InterfaceError, InterfaceType,
    InterfaceView, MappingView, Ownership,
};
use crate::interfaces::{find, introspection_of, Interfaces};
use crate::path::{valid_path, MappingPath};
use crate::payload::{
    data_view, deserialize_individual, deserialize_object, envelope_view, individual_decoded,
    individual_envelope, individual_fault, object_decoded, object_fault, serialize_individual,
    serialize_object, Envelope, PayloadError, ValueView, item_of,
};
use crate::store::{
    after_load, after_unset, entry_of, key_of, loaded, PropEntry, PropKey, PropMap, PropertyStore,
    StoreInterfaceData, StoredProp,
};
use crate::topic::ClientId;
use crate::types::{value_type, AstarteType, AstarteValue};

verus! {

/// The data of a received event.
#[derive(Debug)]
pub enum Aggregation {
    /// One value, of a datastream or a property.
    Individual(AstarteType),
    /// The fields of an object datastream.
    Object(Vec<(String, AstarteType)>),
}

/// A received event.
#[derive(Debug)]
pub struct AstarteDeviceDataEvent {
    pub interface: String,
    pub path: String,
    pub data: Aggregation,
}

/// A publish decided by the runtime. Once the transport has delivered it, hand it back to
/// [`AstarteDeviceSdk::sent`] so that a property is stored.
#[derive(Debug)]
pub struct Publish {
    pub topic: String,
    pub qos: Qos,
    pub payload: PublishPayload,
    /// The property to store after delivery.
    pub property: Option<StoredProp>,
}

/// The stored value of a property, checked against its mapping: a value of another type is
/// dropped.
pub open spec fn checked(m: PropMap, k: PropKey, major: i32, mapping: MappingView) -> Option<AstarteValue> {
    match loaded(m, k, major) {
        Some(v) => if value_type(v) == Some(mapping.mapping_type) { Some(v) } else { None },
        None => None,
    }
}

/// What checking a stored property leaves in the store.
pub open spec fn after_check(m: PropMap, k: PropKey, major: i32, mapping: MappingView) -> PropMap {
    match loaded(m, k, major) {
        Some(v) => if value_type(v) == Some(mapping.mapping_type) {
            after_load(m, k, major)
        } else {
            after_load(m, k, major).remove(k)
        },
        None => after_load(m, k, major),
    }
}

/// A send of `v` is skipped: the property already holds it.
pub open spec fn already_stored(m: PropMap, k: PropKey, major: i32, mapping: MappingView, v: AstarteValue) -> bool {
    checked(m, k, major, mapping) == Some(v)
}

/// The payload of an individual publish.
pub open spec fn individual_payload(v: AstarteValue, ts: Option<i64>) -> crate::connection::PayloadView {
    match individual_envelope(v, ts) {
        Some((vv, t)) => crate::connection::PayloadView::Envelope(vv, t),
        None => crate::connection::PayloadView::Empty,
    }
}

/// What the store holds once a property publish has been delivered.
pub open spec fn after_sent(m: PropMap, p: StoredProp) -> PropMap {
    if p.value@ is Unset {
        after_unset(m, key_of(p))
    } else {
        m.insert(key_of(p), entry_of(p))
    }
}

/// What a send leaves and returns once its interface and mapping are resolved.
pub open spec fn send_effect(
    m0: PropMap,
    m1: PropMap,
    cid: Seq<char>,
    i: InterfaceView,
    path: Seq<char>,
    mp: MappingView,
    v: AstarteValue,
    ts: Option<i64>,
    r: Result<Option<Publish>, Error>,
) -> bool {
    let k = (i.name, path);
    match individual_fault(i.interface_type, mp, v, ts) {
        Some(e) => r == Err::<Option<Publish>, Error>(Error::Payload(e)) && m1 == m0,
        None => if i.interface_type == InterfaceType::Properties {
            &&& m1 == after_check(m0, k, i.version_major, mp)
            &&& already_stored(m0, k, i.version_major, mp, v) ==> r == Ok::<Option<Publish>, Error>(None)
            &&& !already_stored(m0, k, i.version_major, mp, v) ==> (r matches Ok(Some(p)) && publish_of(p, cid, i, path, mp, v, ts, true))
        } else {
            m1 == m0 && (r matches Ok(Some(p)) && publish_of(p, cid, i, path, mp, v, ts, false))
        },
    }
}

/// The publish of `v` on `path`: its topic, QoS, payload and, for a property, what to store.
pub open spec fn publish_of(p: Publish, cid: Seq<char>, i: InterfaceView, path: Seq<char>, mp: MappingView, v: AstarteValue, ts: Option<i64>, property: bool) -> bool {
    &&& p.topic@ == data_topic(cid, i.name, path)
    &&& p.qos == spec_qos_of(mp.reliability)
    &&& p.payload@ == individual_payload(v, ts)
    &&& property ==> (p.property matches Some(sp) && key_of(sp) == (i.name, path) && entry_of(sp) == (PropEntry {
        value: v,
        interface_major: i.version_major,
        ownership: i.ownership,
    }))
    &&& !property ==> p.property is None
}

/// Once a property publish of a value has been delivered, sending the same value again is
/// skipped: two sends of one value publish once.
pub proof fn lemma_send_is_idempotent(m: PropMap, p: StoredProp, mapping: MappingView)
    requires
        !(p.value@ is Unset),
        value_type(p.value@) == Some(mapping.mapping_type),
    ensures
        already_stored(after_sent(m, p), key_of(p), p.interface_major, mapping, p.value@),
{
}

/// What the store holds after a value was received for a property (a datastream leaves it
/// as it is).
pub open spec fn received(m: PropMap, i: InterfaceView, path: Seq<char>, v: AstarteValue) -> PropMap {
    if i.interface_type == InterfaceType::Properties {
        if v is Unset {
            after_unset(m, (i.name, path))
        } else {
            m.insert((i.name, path), PropEntry { value: v, interface_major: i.version_major, ownership: i.ownership })
        }
    } else {
        m
    }
}

/// Two consecutive sends of one value on a property: if the first one publishes and the
/// publish is delivered, the second one publishes nothing.
pub proof fn lemma_two_sends_publish_once(
    m0: PropMap,
    m1: PropMap,
    m2: PropMap,
    cid: Seq<char>,
    i: InterfaceView,
    path: Seq<char>,
    mp: MappingView,
    v: AstarteValue,
    ts: Option<i64>,
    r1: Result<Option<Publish>, Error>,
    p: Publish,
    r2: Result<Option<Publish>, Error>,
)
    requires
        i.interface_type == InterfaceType::Properties,
        !(v is Unset),
        send_effect(m0, m1, cid, i, path, mp, v, ts, r1),
        r1 == Ok::<Option<Publish>, Error>(Some(p)),
        send_effect(after_sent(m1, p.property->Some_0), m2, cid, i, path, mp, v, ts, r2),
    ensures
        r2 == Ok::<Option<Publish>, Error>(None),
{
    assert(individual_fault(i.interface_type, mp, v, ts) is None);
    let sp = p.property->Some_0;
    assert(publish_of(p, cid, i, path, mp, v, ts, true));
    assert(sp.value@ == v);
    lemma_send_is_idempotent(m1, sp, mp);
}

/// The device runtime.
pub struct AstarteDeviceSdk<S> {
    interfaces: Interfaces,
    store: S,
    client_id: ClientId,
}

impl<S: PropertyStore> AstarteDeviceSdk<S> {
    pub open spec fn wf(&self) -> bool {
        self.catalog_wf() && self.store_wf()
    }

    pub closed spec fn catalog_wf(&self) -> bool {
        self.interfaces.wf()
    }

    pub closed spec fn store_wf(&self) -> bool {
        self.store.wf()
    }

    /// The installed interfaces, in order of name.
    pub closed spec fn catalog(&self) -> Seq<InterfaceView> {
        self.interfaces@
    }

    /// The stored properties.
    pub closed spec fn props(&self) -> PropMap {
        self.store.props()
    }

    /// `realm/device_id`.
    pub closed spec fn cid(&self) -> Seq<char> {
        self.client_id.spec_text()
    }

    pub fn new(interfaces: Interfaces, store: S, client_id: ClientId) -> (r: Self)
        requires
            interfaces.wf(),
            store.wf(),
        ensures
            r.wf(),
            r.catalog() == interfaces@,
            r.props() == store.props(),
            r.cid() == client_id.spec_text(),
    {
        AstarteDeviceSdk { interfaces, store, client_id }
    }

    pub fn client_id(&self) -> (r: &ClientId)
        ensures
            r.spec_text() == self.cid(),
    {
        &self.client_id
    }

    pub fn interfaces(&self) -> (r: &Interfaces)
        ensures
            r@ == self.catalog(),
            self.wf() ==> r.wf(),
    {
        &self.interfaces
    }

    pub fn store(&self) -> (r: &S)
        ensures
            r.props() == self.props(),
            self.wf() ==> r.wf(),
    {
        &self.store
    }

    /// Loads the stored value of a property and checks it against its mapping; a value of
    /// another type is deleted.
    fn checked_property(store: &mut S, interface: &Interface, path: &MappingPath, mapping: &crate::interface::Mapping) -> (r: Option<AstarteType>)
        requires
            old(store).wf(),
        ensures
            final(store).wf(),
            final(store).props() == after_check(old(store).props(), (interface@.name, path@), interface@.version_major, mapping@),
            match r {
                Some(v) => checked(old(store).props(), (interface@.name, path@), interface@.version_major, mapping@) == Some(v@),
                None => checked(old(store).props(), (interface@.name, path@), interface@.version_major, mapping@) is None,
            },
    {
        let data = StoreInterfaceData::new(interface.interface_name(), interface.ownership());
        match store.load_prop(&data, path.as_str(), interface.version_major()) {
            Some(v) => {
                let fits = match v.mapping_type() {
                    Some(t) => t == mapping.mapping_type,
                    None => false,
                };
                if fits {
                    Some(v)
                } else {
                    store.delete_prop(interface.interface_name(), path.as_str());
                    None
                }
            },
            None => None,
        }
    }

    /// `<client_id>/<interface><path>`.
    fn data_topic_of(&self, interface: &str, path: &str) -> (r: String)
        ensures
            r@ == data_topic(self.cid(), interface@, path@),
    {
        let mut t = self.client_id.as_text();
        proof { reveal_strlit("/"); }
        t.append("/");
        t.append(interface);
        t.append(path);
        assert(t@ =~= data_topic(self.cid(), interface@, path@));
        t
    }

    /// Validates an individual value for `interface_name` at `interface_path` and decides the
    /// publish: `Ok(None)` when the property already holds the value and nothing is to be sent.
    pub fn send(&mut self, interface_name: &str, interface_path: &str, data: AstarteType, timestamp: Option<i64>) -> (r: Result<Option<Publish>, Error>)
        requires
            old(self).wf(),
        ensures
            final(self).wf(),
            final(self).catalog() == old(self).catalog(),
            final(self).cid() == old(self).cid(),
            !valid_path(interface_path@) ==> (r matches Err(Error::InvalidEndpoint(e)) && e@ == interface_path@ && final(self).props() == old(self).props()),
            valid_path(interface_path@) && find(old(self).catalog(), interface_name@) is None ==> (r matches Err(Error::MissingInterface(n)) && n@ == interface_name@
                && final(self).props() == old(self).props()),
            valid_path(interface_path@) ==> (find(old(self).catalog(), interface_name@) matches Some(i) ==> {
                if i.aggregation == InterfaceAggregation::Object {
                    r == Err::<Option<Publish>, Error>(Error::Aggregation { exp: InterfaceAggregation::Individual, got: InterfaceAggregation::Object })
                        && final(self).props() == old(self).props()
                } else {
                    match resolve(i, interface_path@) {
                        None => r matches Err(Error::MissingMapping { interface: n, mapping: m }) && n@ == interface_name@ && m@ == interface_path@ && final(self).props() == old(self).props(),
                        Some(mp) => send_effect(old(self).props(), final(self).props(), old(self).cid(), i, interface_path@, mp, data@, timestamp, r),
                    }
                }
            }),
    {
        let path = match MappingPath::try_from(interface_path) {
            Ok(p) => p,
            Err(e) => {
                return Err(Error::InvalidEndpoint(e.path));
            },
        };
        let iface = match self.interfaces.get(interface_name) {
            Some(i) => i,
            None => {
                return Err(Error::MissingInterface(String::from_str(interface_name)));
            },
        };
        if iface.as_object_ref().is_some() {
            return Err(Error::Aggregation { exp: InterfaceAggregation::Individual, got: InterfaceAggregation::Object });
        }
        let mapping = match iface.as_mapping_ref(&path) {
            Some(m) => m,
            None => {
                return Err(Error::MissingMapping {
                    interface: String::from_str(interface_name),
                    mapping: String::from_str(interface_path),
                });
            },
        };
        let envelope = match serialize_individual(iface.interface_type(), mapping, &data, timestamp) {
            Ok(e) => e,
            Err(e) => {
                return Err(Error::Payload(e));
            },
        };
        let property = if iface.is_property() {
            let stored = Self::checked_property(&mut self.store, iface, &path, mapping);
            let same = match &stored {
                Some(v) => *v == data,
                None => false,
            };
            if same {
                return Ok(None);
            }
            Some(StoredProp::from_mapping(iface, &path, &data))
        } else {
            None
        };
        let payload = match envelope {
            Some(e) => PublishPayload::Envelope(e),
            None => PublishPayload::Empty,
        };
        let topic = self.data_topic_of(interface_name, interface_path);
        Ok(Some(Publish { topic, qos: qos_of(mapping.reliability), payload, property }))
    }

    /// Unsets a property: the same as sending `Unset`.
    pub fn unset(&mut self, interface_name: &str, interface_path: &str) -> (r: Result<Option<Publish>, Error>)
        requires
            old(self).wf(),
        ensures
            final(self).wf(),
            final(self).catalog() == old(self).catalog(),
            final(self).cid() == old(self).cid(),
            !valid_path(interface_path@) ==> (r matches Err(Error::InvalidEndpoint(e)) && e@ == interface_path@ && final(self).props() == old(self).props()),
            valid_path(interface_path@) && find(old(self).catalog(), interface_name@) is None ==> (r matches Err(Error::MissingInterface(n)) && n@ == interface_name@
                && final(self).props() == old(self).props()),
            valid_path(interface_path@) ==> (find(old(self).catalog(), interface_name@) matches Some(i) ==> {
                if i.aggregation == InterfaceAggregation::Object {
                    r == Err::<Option<Publish>, Error>(Error::Aggregation { exp: InterfaceAggregation::Individual, got: InterfaceAggregation::Object })
                        && final(self).props() == old(self).props()
                } else {
                    match resolve(i, interface_path@) {
                        None => r matches Err(Error::MissingMapping { interface: n, mapping: m }) && n@ == interface_name@ && m@ == interface_path@ && final(self).props() == old(self).props(),
                        Some(mp) => send_effect(old(self).props(), final(self).props(), old(self).cid(), i, interface_path@, mp, AstarteValue::Unset, None, r),
                    }
                }
            }),
    {
        self.send(interface_name, interface_path, AstarteType::Unset, None)
    }

    /// Records that a publish was delivered: its property, if any, is stored (an unset leaves
    /// a tombstone).
    pub fn sent(&mut self, publish: &Publish)
        requires
            old(self).wf(),
        ensures
            final(self).wf(),
            final(self).catalog() == old(self).catalog(),
            final(self).cid() == old(self).cid(),
            final(self).props() == match publish.property {
                Some(p) => after_sent(old(self).props(), p),
                None => old(self).props(),
            },
    {
        match &publish.property {
            Some(p) => {
                if p.value.is_unset() {
                    let data = StoreInterfaceData::new(p.interface.as_str(), p.ownership);
                    self.store.unset_prop(&data, p.path.as_str());
                } else {
                    self.store.store_prop(p);
                }
            },
            None => {},
        }
    }

    /// Validates an object for the object interface `interface_name` published on
    /// `interface_path` and decides the publish.
    pub fn send_object(&self, interface_name: &str, interface_path: &str, data: &Vec<(String, AstarteType)>, timestamp: Option<i64>) -> (r: Result<Publish, Error>)
        requires
            self.wf(),
        ensures
            !valid_path(interface_path@) ==> (r matches Err(Error::InvalidEndpoint(e)) && e@ == interface_path@),
            valid_path(interface_path@) && find(self.catalog(), interface_name@) is None ==> (r matches Err(Error::MissingInterface(n)) && n@ == interface_name@),
            valid_path(interface_path@) ==> (find(self.catalog(), interface_name@) matches Some(i) ==> {
                if i.aggregation == InterfaceAggregation::Individual {
                    r == Err::<Publish, Error>(Error::Aggregation { exp: InterfaceAggregation::Object, got: InterfaceAggregation::Individual })
                } else {
                    match object_fault(i, interface_path@, data_view(data@), timestamp) {
                        Some(e) => r == Err::<Publish, Error>(Error::Payload(e)),
                        None => r matches Ok(p) && p.topic@ == data_topic(self.cid(), i.name, interface_path@)
                            && p.qos == spec_qos_of(i.mappings[0].reliability) && p.property is None
                            && p.payload@ == crate::connection::PayloadView::Envelope(
                                ValueView::Document(data_view(data@).map_values(|e: (Seq<char>, AstarteValue)| (e.0, item_of(e.1)))),
                                timestamp,
                            ),
                    }
                }
            }),
    {
        let path = match MappingPath::try_from(interface_path) {
            Ok(p) => p,
            Err(e) => {
                return Err(Error::InvalidEndpoint(e.path));
            },
        };
        let iface = match self.interfaces.get(interface_name) {
            Some(i) => i,
            None => {
                return Err(Error::MissingInterface(String::from_str(interface_name)));
            },
        };
        let object = match iface.as_object_ref() {
            Some(o) => o,
            None => {
                return Err(Error::Aggregation { exp: InterfaceAggregation::Object, got: InterfaceAggregation::Individual });
            },
        };
        let envelope = match serialize_object(object, &path, data, timestamp) {
            Ok(e) => e,
            Err(e) => {
                return Err(Error::Payload(e));
            },
        };
        object.ensure_valid();
        let qos = qos_of(object.mapping(0).reliability);
        let topic = self.data_topic_of(interface_name, interface_path);
        Ok(Publish { topic, qos, payload: PublishPayload::Envelope(envelope), property: None })
    }

    /// The stored value of a property of an installed property interface.
    pub fn get_property(&mut self, interface_name: &str, interface_path: &str) -> (r: Result<Option<AstarteType>, Error>)
        requires
            old(self).wf(),
        ensures
            final(self).wf(),
            final(self).catalog() == old(self).catalog(),
            final(self).cid() == old(self).cid(),
            !valid_path(interface_path@) ==> (r matches Err(Error::InvalidEndpoint(e)) && e@ == interface_path@ && final(self).props() == old(self).props()),
            valid_path(interface_path@) && !(find(old(self).catalog(), interface_name@) matches Some(i) && i.interface_type == InterfaceType::Properties)
                ==> (r matches Err(Error::MissingInterface(n)) && n@ == interface_name@ && final(self).props() == old(self).props()),
            valid_path(interface_path@) ==> (find(old(self).catalog(), interface_name@) matches Some(i) ==> (i.interface_type == InterfaceType::Properties ==> {
                match resolve(i, interface_path@) {
                    None => r matches Err(Error::MissingMapping { interface: n, mapping: m }) && n@ == interface_name@ && m@ == interface_path@ && final(self).props() == old(self).props(),
                    Some(mp) => {
                        let k = (i.name, interface_path@);
                        &&& final(self).props() == after_check(old(self).props(), k, i.version_major, mp)
                        &&& match r {
                            Ok(Some(v)) => checked(old(self).props(), k, i.version_major, mp) == Some(v@),
                            Ok(None) => checked(old(self).props(), k, i.version_major, mp) is None,
                            Err(_) => false,
                        }
                    },
                }
            })),
    {
        let path = match MappingPath::try_from(interface_path) {
            Ok(p) => p,
            Err(e) => {
                return Err(Error::InvalidEndpoint(e.path));
            },
        };
        let iface = match self.interfaces.get_property(interface_name) {
            Some(i) => i,
            None => {
                return Err(Error::MissingInterface(String::from_str(interface_name)));
            },
        };
        let mapping = match iface.as_mapping_ref(&path) {
            Some(m) => m,
            None => {
                return Err(Error::MissingMapping {
                    interface: String::from_str(interface_name),
                    mapping: String::from_str(interface_path),
                });
            },
        };
        Ok(Self::checked_property(&mut self.store, iface, &path, mapping))
    }

    /// Handles a publish received on `<interface><path>`; `payload` is `None` for an empty
    /// payload. A property is stored (an unset one is unset in the store).
    pub fn handle_event(&mut self, interface: &str, path: &str, payload: &Option<Envelope>) -> (r: Result<AstarteDeviceDataEvent, Error>)
        requires
            old(self).wf(),
        ensures
            final(self).wf(),
            final(self).catalog() == old(self).catalog(),
            final(self).cid() == old(self).cid(),
            r is Err ==> final(self).props() == old(self).props(),
            r matches Ok(ev) ==> ev.interface@ == interface@ && ev.path@ == path@,
            !valid_path(path@) ==> (r matches Err(Error::InvalidEndpoint(e)) && e@ == path@),
            valid_path(path@) && find(old(self).catalog(), interface@) is None ==> (r matches Err(Error::MissingInterface(n)) && n@ == interface@),
            valid_path(path@) ==> (find(old(self).catalog(), interface@) matches Some(i) ==> {
                if i.aggregation == InterfaceAggregation::Individual {
                    match resolve(i, path@) {
                        None => r matches Err(Error::MissingMapping { interface: n, mapping: m }) && n@ == interface@ && m@ == path@,
                        Some(mp) => match individual_decoded(i.interface_type, mp, envelope_view(*payload)) {
                            Err(e) => r == Err::<AstarteDeviceDataEvent, Error>(Error::Payload(e)),
                            Ok((v, t)) => (r matches Ok(ev) && ev.data matches Aggregation::Individual(x) && x@ == v)
                                && final(self).props() == received(old(self).props(), i, path@, v),
                        },
                    }
                } else {
                    &&& final(self).props() == old(self).props()
                    &&& match payload {
                        None => r == Err::<AstarteDeviceDataEvent, Error>(Error::Payload(PayloadError::UnexpectedShape)),
                        Some(env) => match object_decoded(i, path@, env.v@, env.t) {
                            Err(e) => r == Err::<AstarteDeviceDataEvent, Error>(Error::Payload(e)),
                            Ok((d, t)) => r matches Ok(ev) && ev.data matches Aggregation::Object(o) && data_view(o@) == d,
                        },
                    }
                }
            }),
    {
        let mpath = match MappingPath::try_from(path) {
            Ok(p) => p,
            Err(e) => {
                return Err(Error::InvalidEndpoint(e.path));
            },
        };
        let iface = match self.interfaces.get(interface) {
            Some(i) => i,
            None => {
                return Err(Error::MissingInterface(String::from_str(interface)));
            },
        };
        let data = match iface.as_object_ref() {
            None => {
                let mapping = match iface.as_mapping_ref(&mpath) {
                    Some(m) => m,
                    None => {
                        return Err(Error::MissingMapping {
                            interface: String::from_str(interface),
                            mapping: String::from_str(path),
                        });
                    },
                };
                let (value, _timestamp) = match deserialize_individual(iface.interface_type(), mapping, payload) {
                    Ok(d) => d,
                    Err(e) => {
                        return Err(Error::Payload(e));
                    },
                };
                if iface.is_property() {
                    if value.is_unset() {
                        let sd = StoreInterfaceData::new(interface, iface.ownership());
                        self.store.unset_prop(&sd, path);
                    } else {
                        let prop = StoredProp::from_mapping(iface, &mpath, &value);
                        self.store.store_prop(&prop);
                    }
                }
                Aggregation::Individual(value)
            },
            Some(object) => {
                let env = match payload {
                    Some(env) => env,
                    None => {
                        return Err(Error::Payload(PayloadError::UnexpectedShape));
                    },
                };
                let (fields, _timestamp) = match deserialize_object(object, &mpath, env) {
                    Ok(d) => d,
                    Err(e) => {
                        return Err(Error::Payload(e));
                    },
                };
                Aggregation::Object(fields)
            },
        };
        Ok(AstarteDeviceDataEvent { interface: String::from_str(interface), path: String::from_str(path), data })
    }

    /// Applies a purge-properties directive: every device-owned property that it does not
    /// list is deleted, tombstones included.
    pub fn purge_properties(&mut self, bdata: &[u8]) -> (r: Result<(), Error>)
        requires
            old(self).wf(),
        ensures
            final(self).wf(),
            final(self).catalog() == old(self).catalog(),
            final(self).cid() == old(self).cid(),
            match crate::properties::purge_decoded(bdata@) {
                Ok(listed) => r is Ok && final(self).props() == purged(old(self).props(), listed),
                Err(e) => r == Err::<(), Error>(Error::Properties(e)) && final(self).props() == old(self).props(),
            },
    {
        match crate::properties::extract_set_properties(bdata) {
            Ok(set) => {
                crate::connection::purge_properties(&mut self.store, &set);
                Ok(())
            },
            Err(e) => Err(Error::Properties(e)),
        }
    }

    /// The actions on a connection acknowledgement: nothing for a resumed session, the
    /// handshake for a fresh one (see [`crate::connection::connack`]).
    pub fn connack(&self, session_present: bool) -> (r: Vec<MqttAction>)
        requires
            self.wf(),
        ensures
            session_present ==> r@.len() == 0,
            !session_present ==> exists|l: Seq<StoredProp>| #[trigger] crate::connection::lists_live(l, self.props())
                && crate::connection::actions_view(r@) == crate::connection::handshake_actions(
                    self.cid(),
                    self.catalog(),
                    crate::connection::surviving(self.catalog(), crate::connection::props_view(l)),
                ),
    {
        let r = crate::connection::connack(&self.client_id, &self.interfaces, &self.store, session_present);
        proof {
            if !session_present {
                let l = choose|l: Seq<StoredProp>| #[trigger] crate::connection::lists_live(l, self.store.props())
                    && crate::connection::actions_view(r@) == crate::connection::handshake_actions(
                        self.client_id.spec_text(),
                        self.interfaces@,
                        crate::connection::surviving(self.interfaces@, crate::connection::props_view(l)),
                    );
                assert(crate::connection::lists_live(l, self.props()));
            }
        }
        r
    }

    /// Installs an interface, or a newer version of an installed one. A server-owned interface
    /// is subscribed to; the new introspection is published.
    pub fn add_interface(&mut self, interface: Interface) -> (r: Result<Vec<MqttAction>, Error>)
        requires
            old(self).wf(),
        ensures
            final(self).wf(),
            final(self).cid() == old(self).cid(),
            final(self).props() == old(self).props(),
            (find(old(self).catalog(), interface@.name) matches Some(o) && !crate::interfaces::version_upgrade(o, interface@))
                <==> r is Err,
            r is Err ==> (r matches Err(Error::Interface(InterfaceError::VersionChange { name })) && name@ == interface@.name) && final(self).catalog() == old(self).catalog(),
            r is Ok ==> find(final(self).catalog(), interface@.name) == Some(interface@),
            r is Ok ==> forall|n: Seq<char>| n != interface@.name ==> find(#[trigger] final(self).catalog(), n) == find(old(self).catalog(), n),
            r matches Ok(acts) ==> crate::connection::actions_view(acts@) == (if interface@.ownership == Ownership::Server {
                seq![crate::connection::ActionView::Subscribe(interface_filter(old(self).cid(), interface@.name), Qos::ExactlyOnce)]
            } else {
                Seq::empty()
            }) + seq![crate::connection::ActionView::Publish(
                old(self).cid(),
                Qos::ExactlyOnce,
                false,
                crate::connection::PayloadView::Text(introspection_of(final(self).catalog())),
            )],
    {
        interface.ensure_valid();
        let server = interface.ownership() == Ownership::Server;
        let cid = self.client_id.as_text();
        let mut filter = cid.clone();
        proof { reveal_strlit("/"); reveal_strlit("/#"); }
        filter.append("/");
        filter.append(interface.interface_name());
        filter.append("/#");
        assert(filter@ =~= interface_filter(self.cid(), interface@.name));
        match self.interfaces.add(interface) {
            Ok(()) => {},
            Err(e) => {
                return Err(Error::Interface(e));
            },
        }
        let mut acts: Vec<MqttAction> = Vec::new();
        if server {
            acts.push(MqttAction::Subscribe { topic: filter, qos: Qos::ExactlyOnce });
        }
        acts.push(MqttAction::Publish {
            topic: cid,
            qos: Qos::ExactlyOnce,
            retain: false,
            payload: PublishPayload::Text(self.interfaces.get_introspection_string()),
        });
        proof {
            let expected = (if server {
                seq![crate::connection::ActionView::Subscribe(interface_filter(old(self).cid(), interface@.name), Qos::ExactlyOnce)]
            } else {
                Seq::<crate::connection::ActionView>::empty()
            }) + seq![crate::connection::ActionView::Publish(
                old(self).cid(),
                Qos::ExactlyOnce,
                false,
                crate::connection::PayloadView::Text(introspection_of(self.interfaces@)),
            )];
            assert(crate::connection::actions_view(acts@) =~= expected);
        }
        Ok(acts)
    }

    /// Removes an interface and its stored properties; the new introspection is published and
    /// a server-owned interface is unsubscribed from.
    pub fn remove_interface(&mut self, interface_name: &str) -> (r: Result<Vec<MqttAction>, Error>)
        requires
            old(self).wf(),
        ensures
            final(self).wf(),
            final(self).cid() == old(self).cid(),
            find(old(self).catalog(), interface_name@) is None <==> r is Err,
            r is Err ==> (r matches Err(Error::Interface(InterfaceError::InterfaceNotFound { name: n })) && n@ == interface_name@)
                && final(self).catalog() == old(self).catalog() && final(self).props() == old(self).props(),
            r is Ok ==> find(final(self).catalog(), interface_name@) is None,
            r is Ok ==> forall|n: Seq<char>| n != interface_name@ ==> find(#[trigger] final(self).catalog(), n) == find(old(self).catalog(), n),
            r is Ok ==> final(self).props() == crate::store::without_interface(old(self).props(), interface_name@),
            r matches Ok(acts) ==> crate::connection::actions_view(acts@) == seq![crate::connection::ActionView::Publish(
                old(self).cid(),
                Qos::ExactlyOnce,
                false,
                crate::connection::PayloadView::Text(introspection_of(final(self).catalog())),
            )] + (if find(old(self).catalog(), interface_name@)->Some_0.ownership == Ownership::Server {
                seq![crate::connection::ActionView::Unsubscribe(interface_filter(old(self).cid(), interface_name@))]
            } else {
                Seq::empty()
            }),
    {
        let removed = match self.interfaces.remove(interface_name) {
            Some(i) => i,
            None => {
                return Err(Error::Interface(InterfaceError::InterfaceNotFound { name: String::from_str(interface_name) }));
            },
        };
        let sd = StoreInterfaceData::new(interface_name, removed.ownership());
        self.store.delete_interface(&sd);
        let cid = self.client_id.as_text();
        let mut acts: Vec<MqttAction> = Vec::new();
        acts.push(MqttAction::Publish {
            topic: cid.clone(),
            qos: Qos::ExactlyOnce,
            retain: false,
            payload: PublishPayload::Text(self.interfaces.get_introspection_string()),
        });
        let server = removed.ownership() == Ownership::Server;
        if server {
            let mut filter = cid;
            proof { reveal_strlit("/"); reveal_strlit("/#"); }
            filter.append("/");
            filter.append(interface_name);
            filter.append("/#");
            assert(filter@ =~= interface_filter(old(self).cid(), interface_name@));
            acts.push(MqttAction::Unsubscribe { topic: filter });
        }
        proof {
            let expected = seq![crate::connection::ActionView::Publish(
                old(self).cid(),
                Qos::ExactlyOnce,
                false,
                crate::connection::PayloadView::Text(introspection_of(self.interfaces@)),
            )] + (if server {
                seq![crate::connection::ActionView::Unsubscribe(interface_filter(old(self).cid(), interface_name@))]
            } else {
                Seq::<crate::connection::ActionView>::empty()
            });
            assert(crate::connection::actions_view(acts@) =~= expected);
        }
        Ok(acts)
    }
}

} // verus!
