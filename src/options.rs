//! Configuration of a device: the builder that gathers interfaces and a store, and the MQTT
//! connection options.
use vstd::prelude::*;
use crate::device::AstarteDeviceSdk;
use crate::interface::{Interface, InterfaceError, InterfaceView};
use crate::interfaces::{add_all, add_to, by_name, find, Interfaces};
use crate::store::{MemoryStore, PropMap, PropertyStore};
use crate::topic::ClientId;

verus! {

/// Errors of the builder.
#[derive(Debug, Clone, PartialEq)]
pub enum BuilderError {
    /// An interface was refused.
    Interface(InterfaceError),
}

/// Gathers the interfaces and the store of a device.
pub struct DeviceBuilder<S> {
    interfaces: Interfaces,
    store: S,
}

impl DeviceBuilder<MemoryStore> {
    /// A builder with no interface and an empty store in memory.
    pub fn new() -> (r: DeviceBuilder<MemoryStore>)
        ensures
            r.wf(),
            r.catalog() == Seq::<InterfaceView>::empty(),
            r.props() == PropMap::empty(),
    {
        DeviceBuilder { interfaces: Interfaces::new(), store: MemoryStore::new() }
    }
}

impl<S: PropertyStore> DeviceBuilder<S> {
    pub closed spec fn wf(&self) -> bool {
        self.interfaces.wf() && self.store.wf()
    }

    pub closed spec fn catalog(&self) -> Seq<InterfaceView> {
        self.interfaces@
    }

    pub closed spec fn props(&self) -> PropMap {
        self.store.props()
    }

    /// A builder with no interface and the given store.
    pub fn with_store(store: S) -> (r: Self)
        requires
            store.wf(),
        ensures
            r.wf(),
            r.catalog() == Seq::<InterfaceView>::empty(),
            r.props() == store.props(),
    {
        DeviceBuilder { interfaces: Interfaces::new(), store }
    }

    /// The same interfaces with another store.
    pub fn store<T: PropertyStore>(self, store: T) -> (r: DeviceBuilder<T>)
        requires
            self.wf(),
            store.wf(),
        ensures
            r.wf(),
            r.catalog() == self.catalog(),
            r.props() == store.props(),
    {
        DeviceBuilder { interfaces: self.interfaces, store }
    }

    /// Adds an interface, or a newer version of one already added.
    pub fn interface(self, interface: Interface) -> (r: Result<Self, BuilderError>)
        requires
            self.wf(),
        ensures
            (find(self.catalog(), interface@.name) matches Some(o) && !crate::interfaces::version_upgrade(o, interface@)) <==> r is Err,
            r matches Err(e) ==> e matches BuilderError::Interface(InterfaceError::VersionChange { .. }),
            r matches Ok(b) ==> b.wf() && b.props() == self.props() && find(b.catalog(), interface@.name) == Some(interface@)
                && (forall|n: Seq<char>| n != interface@.name ==> find(#[trigger] b.catalog(), n) == find(self.catalog(), n))
                && add_to(by_name(self.catalog()), interface@) == Some(by_name(b.catalog())),
            r is Err ==> add_to(by_name(self.catalog()), interface@) is None,
    {
        interface.ensure_valid();
        let mut b = self;
        match b.interfaces.add(interface) {
            Ok(()) => Ok(b),
            Err(e) => Err(BuilderError::Interface(e)),
        }
    }

    /// Adds every interface of a directory, in the order given; the first refused one stops
    /// the builder.
    pub fn interface_directory(self, interfaces: Vec<Interface>) -> (r: Result<Self, BuilderError>)
        requires
            self.wf(),
        ensures
            r is Ok <==> add_all(by_name(self.catalog()), interfaces@.map_values(|i: Interface| i@)) is Some,
            r matches Ok(b) ==> b.wf() && b.props() == self.props()
                && add_all(by_name(self.catalog()), interfaces@.map_values(|i: Interface| i@)) == Some(by_name(b.catalog())),
            r matches Err(e) ==> e matches BuilderError::Interface(InterfaceError::VersionChange { .. }),
    {
        let mut b = self;
        let mut rest = interfaces;
        let ghost all = rest@;
        let mut done: usize = 0;
        let n = rest.len();
        while rest.len() > 0
            invariant
                all == interfaces@,
                all.len() == n,
                b.wf(),
                b.props() == self.props(),
                done + rest@.len() == all.len(),
                rest@ == all.skip(done as int),
                add_all(by_name(self.catalog()), all.map_values(|i: Interface| i@).subrange(0, done as int)) == Some(by_name(b.catalog())),
            decreases rest@.len(),
        {
            let i = rest.remove(0);
            assert(all[done as int] == i);
            let ghost views = all.map_values(|i: Interface| i@);
            proof {
                let t = views.subrange(0, done as int + 1);
                assert(t.drop_last() =~= views.subrange(0, done as int));
                assert(t.last() == i@);
            }
            let ghost cat_b = b.catalog();
            let ghost iv = i@;
            b = match b.interface(i) {
                Ok(nb) => nb,
                Err(e) => {
                    proof {
                        let t = views.subrange(0, done as int + 1);
                        assert(add_all(by_name(self.catalog()), t.drop_last()) == Some(by_name(cat_b)));
                        assert(add_to(by_name(cat_b), iv) is None);
                        assert(add_all(by_name(self.catalog()), t) is None);
                        lemma_add_all_stops(by_name(self.catalog()), views, done as int + 1);
                        assert(views == interfaces@.map_values(|i: Interface| i@));
                    }
                    return Err(e);
                },
            };
            done = done + 1;
            assert(rest@ =~= all.skip(done as int));
        }
        assert(done == all.len());
        assert(all.map_values(|i: Interface| i@).subrange(0, done as int) =~= all.map_values(|i: Interface| i@));
        Ok(b)
    }

    /// The device runtime for the client `realm/device_id`.
    pub fn build(self, client_id: ClientId) -> (r: AstarteDeviceSdk<S>)
        requires
            self.wf(),
        ensures
            r.wf(),
            r.catalog() == self.catalog(),
            r.props() == self.props(),
            r.cid() == client_id.spec_text(),
    {
        AstarteDeviceSdk::new(self.interfaces, self.store, client_id)
    }
}

/// Once an interface is refused, adding more does not help.
proof fn lemma_add_all_stops(m: Map<Seq<char>, InterfaceView>, s: Seq<InterfaceView>, k: int)
    requires
        0 <= k <= s.len(),
        add_all(m, s.subrange(0, k)) is None,
    ensures
        add_all(m, s) is None,
    decreases s.len() - k,
{
    if k < s.len() {
        let t = s.subrange(0, k + 1);
        assert(t.drop_last() =~= s.subrange(0, k));
        lemma_add_all_stops(m, s, k + 1);
    } else {
        assert(s.subrange(0, k) =~= s);
    }
}

/// Options of the MQTT connection. It has no `Debug`, so that the secret stays out of logs.
pub struct MqttConfig {
    pub realm: String,
    pub device_id: String,
    pub credentials_secret: String,
    pub pairing_url: String,
    pub ignore_ssl_errors: bool,
    /// Seconds without traffic after which the broker is pinged.
    pub keepalive_secs: u64,
}

/// Default keep-alive, in seconds.
pub const DEFAULT_KEEPALIVE_SECS: u64 = 30;

impl MqttConfig {
    /// Options that check TLS certificates and keep alive every thirty seconds.
    pub fn new(realm: &str, device_id: &str, credentials_secret: &str, pairing_url: &str) -> (r: MqttConfig)
        ensures
            r.realm@ == realm@,
            r.device_id@ == device_id@,
            r.credentials_secret@ == credentials_secret@,
            r.pairing_url@ == pairing_url@,
            !r.ignore_ssl_errors,
            r.keepalive_secs == DEFAULT_KEEPALIVE_SECS,
    {
        MqttConfig {
            realm: String::from_str(realm),
            device_id: String::from_str(device_id),
            credentials_secret: String::from_str(credentials_secret),
            pairing_url: String::from_str(pairing_url),
            ignore_ssl_errors: false,
            keepalive_secs: DEFAULT_KEEPALIVE_SECS,
        }
    }

    /// Sets the keep-alive.
    pub fn keepalive(self, secs: u64) -> (r: MqttConfig)
        ensures
            r.keepalive_secs == secs,
            r.realm == self.realm && r.device_id == self.device_id && r.credentials_secret == self.credentials_secret
                && r.pairing_url == self.pairing_url && r.ignore_ssl_errors == self.ignore_ssl_errors,
    {
        MqttConfig { keepalive_secs: secs, ..self }
    }

    /// Ignores TLS certificate errors.
    pub fn ignore_ssl_errors(self) -> (r: MqttConfig)
        ensures
            r.ignore_ssl_errors,
            r.realm == self.realm && r.device_id == self.device_id && r.credentials_secret == self.credentials_secret
                && r.pairing_url == self.pairing_url && r.keepalive_secs == self.keepalive_secs,
    {
        MqttConfig { ignore_ssl_errors: true, ..self }
    }

    /// The client id `realm/device_id`.
    pub fn client_id(&self) -> (r: ClientId)
        ensures
            r.realm@ == self.realm@,
            r.device_id@ == self.device_id@,
    {
        ClientId::new(self.realm.as_str(), self.device_id.as_str())
    }
}

} // verus!
