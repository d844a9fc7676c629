//! The decisions of the MQTT transport: the reconnect handshake, the purge of device
//! properties, and the topics and delivery guarantees of outgoing publishes.
use vstd::prelude::*;
use crate::interface::{InterfaceType, InterfaceView, Ownership, Reliability};
use crate::interfaces::{find, introspection_of, Interfaces};
use crate::payload::{encode_value, item_of, BsonValue, Envelope, ValueView};
use crate::properties::PurgeSet;
use crate::store::{
    entry_of, key_of, lists, lists_with_unset, is_tombstone, PropEntry, PropKey, PropMap, PropertyStore,
    StoredProp,
};
use crate::topic::ClientId;

verus! {

/// MQTT delivery guarantee.
#[derive(Debug, Clone, Copy, PartialEq, Eq, Structural)]
pub enum Qos {
    AtMostOnce,
    AtLeastOnce,
    ExactlyOnce,
}

pub open spec fn spec_qos_of(r: Reliability) -> Qos {
    match r {
        Reliability::Unreliable => Qos::AtMostOnce,
        Reliability::Guaranteed => Qos::AtLeastOnce,
        Reliability::Unique => Qos::ExactlyOnce,
    }
}

/// The QoS of a mapping's reliability.
pub fn qos_of(r: Reliability) -> (q: Qos)
    ensures
        q == spec_qos_of(r),
{
    match r {
        Reliability::Unreliable => Qos::AtMostOnce,
        Reliability::Guaranteed => Qos::AtLeastOnce,
        Reliability::Unique => Qos::ExactlyOnce,
    }
}

/// The payload of a publish.
#[derive(Debug)]
pub enum PublishPayload {
    /// Plain text (introspection, the empty-cache sentinel).
    Text(String),
    /// A value envelope.
    Envelope(Envelope),
    /// The zero-length payload of an unset.
    Empty,
}

/// Something the transport must do.
#[derive(Debug)]
pub enum MqttAction {
    Subscribe { topic: String, qos: Qos },
    Unsubscribe { topic: String },
    Publish { topic: String, qos: Qos, retain: bool, payload: PublishPayload },
}

pub enum PayloadView {
    Text(Seq<char>),
    Envelope(ValueView, Option<i64>),
    Empty,
}

pub enum ActionView {
    Subscribe(Seq<char>, Qos),
    Unsubscribe(Seq<char>),
    Publish(Seq<char>, Qos, bool, PayloadView),
}

impl View for PublishPayload {
    type V = PayloadView;

    open spec fn view(&self) -> PayloadView {
        match self {
            PublishPayload::Text(s) => PayloadView::Text(s@),
            PublishPayload::Envelope(e) => PayloadView::Envelope(e.v@, e.t),
            PublishPayload::Empty => PayloadView::Empty,
        }
    }
}

impl View for MqttAction {
    type V = ActionView;

    open spec fn view(&self) -> ActionView {
        match self {
            MqttAction::Subscribe { topic, qos } => ActionView::Subscribe(topic@, *qos),
            MqttAction::Unsubscribe { topic } => ActionView::Unsubscribe(topic@),
            MqttAction::Publish { topic, qos, retain, payload } => ActionView::Publish(topic@, *qos, *retain, payload@),
        }
    }
}

pub open spec fn actions_view(v: Seq<MqttAction>) -> Seq<ActionView> {
    v.map_values(|a: MqttAction| a@)
}

/// `<client_id>/control/consumer/properties`.
pub open spec fn purge_topic(cid: Seq<char>) -> Seq<char> {
    cid + "/control/consumer/properties"@
}

/// `<client_id>/<interface>/#`.
pub open spec fn interface_filter(cid: Seq<char>, name: Seq<char>) -> Seq<char> {
    cid + seq!['/'] + name + "/#"@
}

/// `<client_id>/<interface><path>`.
pub open spec fn data_topic(cid: Seq<char>, name: Seq<char>, path: Seq<char>) -> Seq<char> {
    cid + seq!['/'] + name + path
}

/// `<client_id>/control/emptyCache`.
pub open spec fn empty_cache_topic(cid: Seq<char>) -> Seq<char> {
    cid + "/control/emptyCache"@
}

/// A stored device property survives a fresh session when its interface is installed as a
/// device-owned property interface of the same major version.
pub open spec fn survives(cat: Seq<InterfaceView>, p: (PropKey, PropEntry)) -> bool {
    match find(cat, p.0.0) {
        Some(i) => i.interface_type == InterfaceType::Properties && i.ownership == Ownership::Device
            && i.version_major == p.1.interface_major,
        None => false,
    }
}

/// The properties that survive a fresh session, in order.
pub open spec fn surviving(cat: Seq<InterfaceView>, ps: Seq<(PropKey, PropEntry)>) -> Seq<(PropKey, PropEntry)> {
    ps.filter(|q: (PropKey, PropEntry)| survives(cat, q))
}

pub open spec fn prop_view(p: StoredProp) -> (PropKey, PropEntry) {
    (key_of(p), entry_of(p))
}

pub open spec fn props_view(v: Seq<StoredProp>) -> Seq<(PropKey, PropEntry)> {
    v.map_values(|p: StoredProp| prop_view(p))
}

/// The names of the server-owned interfaces, in order of name.
pub open spec fn server_interfaces(cat: Seq<InterfaceView>) -> Seq<Seq<char>> {
    cat.filter(|i: InterfaceView| i.ownership == Ownership::Server).map_values(|i: InterfaceView| i.name)
}

/// What the device sends on a fresh session, in order.
pub open spec fn handshake_actions(cid: Seq<char>, cat: Seq<InterfaceView>, device_props: Seq<(PropKey, PropEntry)>) -> Seq<ActionView> {
    seq![ActionView::Subscribe(purge_topic(cid), Qos::ExactlyOnce)]
        + server_interfaces(cat).map_values(|n: Seq<char>| ActionView::Subscribe(interface_filter(cid, n), Qos::ExactlyOnce))
        + seq![
        ActionView::Publish(cid, Qos::ExactlyOnce, false, PayloadView::Text(introspection_of(cat))),
        ActionView::Publish(empty_cache_topic(cid), Qos::ExactlyOnce, false, PayloadView::Text("1"@)),
    ] + device_props.map_values(|p: (PropKey, PropEntry)| ActionView::Publish(
        data_topic(cid, p.0.0, p.0.1),
        Qos::ExactlyOnce,
        false,
        PayloadView::Envelope(ValueView::Item(item_of(p.1.value)), None),
    ))
}

pub open spec fn strings_of(v: Seq<String>) -> Seq<Seq<char>> {
    v.map_values(|s: String| s@)
}

/// What the device announces on a fresh session.
pub struct Introspection {
    /// The introspection string.
    pub interfaces: String,
    /// The names of the server-owned interfaces.
    pub server_interfaces: Vec<String>,
    /// The device properties to publish again.
    pub device_properties: Vec<StoredProp>,
}

impl Introspection {
    /// The introspection of the catalog, its server-owned interfaces, and the stored
    /// properties that survive a fresh session.
    pub fn new(interfaces: &Interfaces, properties: Vec<StoredProp>) -> (r: Introspection)
        requires
            interfaces.wf(),
        ensures
            r.interfaces@ == introspection_of(interfaces@),
            strings_of(r.server_interfaces@) == server_interfaces(interfaces@),
            props_view(r.device_properties@) == surviving(interfaces@, props_view(properties@)),
    {
        let device_properties = Self::filter_device_properties(properties, interfaces);
        let server_interfaces = Self::filter_server_interfaces(interfaces);
        Introspection { interfaces: interfaces.get_introspection_string(), server_interfaces, device_properties }
    }

    /// Keeps the stored properties that survive a fresh session under the catalog, in order.
    pub fn filter_device_properties(properties: Vec<StoredProp>, interfaces: &Interfaces) -> (r: Vec<StoredProp>)
        requires
            interfaces.wf(),
        ensures
            props_view(r@) == props_view(properties@).filter(|p: (PropKey, PropEntry)| survives(interfaces@, p)),
    {
        let ghost all = props_view(properties@);
        let mut r: Vec<StoredProp> = Vec::new();
        let mut i: usize = 0;
        while i < properties.len()
            invariant
                interfaces.wf(),
                all == props_view(properties@),
                i <= properties@.len(),
                props_view(r@) == all.subrange(0, i as int).filter(|q: (PropKey, PropEntry)| survives(interfaces@, q)),
            decreases properties@.len() - i,
        {
            let p = &properties[i];
            proof {
                reveal(Seq::filter);
                assert(all.subrange(0, i as int + 1).drop_last() =~= all.subrange(0, i as int));
                assert(all[i as int] == prop_view(*p));
            }
            let keep = match interfaces.get(p.interface.as_str()) {
                Some(iface) => iface.is_property() && iface.ownership() == Ownership::Device
                    && iface.version_major() == p.interface_major,
                None => false,
            };
            let ghost r0 = r@;
            if keep {
                r.push(crate::store::copy_prop(p));
                assert(props_view(r@) =~= props_view(r0).push(prop_view(*p)));
            }
            proof {
                reveal(Seq::filter);
                let t = all.subrange(0, i as int + 1);
                assert(t.drop_last() =~= all.subrange(0, i as int));
                assert(t.last() == all[i as int]);
                assert(all[i as int] == prop_view(*p));
                assert(keep == survives(interfaces@, prop_view(*p)));
            }
            i = i + 1;
        }
        assert(all.subrange(0, properties@.len() as int) =~= all);
        r
    }

    /// The names of the server-owned interfaces, in order of name.
    pub fn filter_server_interfaces(interfaces: &Interfaces) -> (r: Vec<String>)
        ensures
            strings_of(r@) == server_interfaces(interfaces@),
    {
        let ghost all = interfaces@;
        let mut r: Vec<String> = Vec::new();
        let mut i: usize = 0;
        while i < interfaces.len()
            invariant
                all == interfaces@,
                i <= all.len(),
                strings_of(r@) == all.subrange(0, i as int).filter(|x: InterfaceView| x.ownership == Ownership::Server).map_values(|x: InterfaceView| x.name),
            decreases all.len() - i,
        {
            let iface = interfaces.at(i);
            let ghost r0 = r@;
            let server = iface.ownership() == Ownership::Server;
            if server {
                r.push(String::from_str(iface.interface_name()));
            }
            proof {
                reveal(Seq::filter);
                let t = all.subrange(0, i as int + 1);
                assert(t.drop_last() =~= all.subrange(0, i as int));
                assert(t.last() == all[i as int]);
                let f0 = all.subrange(0, i as int).filter(|x: InterfaceView| x.ownership == Ownership::Server);
                if server {
                    assert(iface@ == all[i as int]);
                    assert(strings_of(r@) =~= strings_of(r0).push(all[i as int].name));
                    assert(t.filter(|x: InterfaceView| x.ownership == Ownership::Server) == f0.push(all[i as int]));
                    assert(strings_of(r@) =~= f0.push(all[i as int]).map_values(|x: InterfaceView| x.name));
                } else {
                    assert(t.filter(|x: InterfaceView| x.ownership == Ownership::Server) == f0);
                    assert(strings_of(r@) =~= strings_of(r0));
                }
            }
            i = i + 1;
        }
        assert(all.subrange(0, all.len() as int) =~= all);
        r
    }
}

/// `<client_id>/<name>` followed by `suffix`.
fn topic_of(cid: &String, name: &str, suffix: &str) -> (r: String)
    ensures
        r@ == cid@ + seq!['/'] + name@ + suffix@,
{
    let mut t = cid.clone();
    proof { reveal_strlit("/"); }
    t.append("/");
    t.append(name);
    t.append(suffix);
    assert(t@ =~= cid@ + seq!['/'] + name@ + suffix@);
    t
}

/// The actions of the handshake of a fresh session, given the stored properties.
pub fn handshake(client_id: &ClientId, interfaces: &Interfaces, properties: Vec<StoredProp>) -> (r: Vec<MqttAction>)
    requires
        interfaces.wf(),
    ensures
        actions_view(r@) == handshake_actions(
            client_id.spec_text(),
            interfaces@,
            surviving(interfaces@, props_view(properties@)),
        ),
{
    let cid = client_id.as_text();
    let ghost c = cid@;
    let Introspection { interfaces: text, server_interfaces: server, device_properties: device } = Introspection::new(
        interfaces,
        properties,
    );
    let mut r: Vec<MqttAction> = Vec::new();
    let mut t = cid.clone();
    proof { reveal_strlit("/control/consumer/properties"); }
    t.append("/control/consumer/properties");
    r.push(MqttAction::Subscribe { topic: t, qos: Qos::ExactlyOnce });
    let ghost head = seq![ActionView::Subscribe(purge_topic(c), Qos::ExactlyOnce)];
    assert(actions_view(r@) =~= head);
    let ghost subs = server_interfaces(interfaces@).map_values(|n: Seq<char>| ActionView::Subscribe(interface_filter(c, n), Qos::ExactlyOnce));
    let mut i: usize = 0;
    while i < server.len()
        invariant
            c == cid@,
            c == client_id.spec_text(),
            strings_of(server@) == server_interfaces(interfaces@),
            subs == server_interfaces(interfaces@).map_values(|n: Seq<char>| ActionView::Subscribe(interface_filter(c, n), Qos::ExactlyOnce)),
            i <= server@.len(),
            actions_view(r@) == head + subs.subrange(0, i as int),
        decreases server@.len() - i,
    {
        proof { reveal_strlit("/#"); }
        let topic = topic_of(&cid, server[i].as_str(), "/#");
        let ghost r0 = r@;
        r.push(MqttAction::Subscribe { topic, qos: Qos::ExactlyOnce });
        proof {
            assert(strings_of(server@)[i as int] == server@[i as int]@);
            assert(subs[i as int] == ActionView::Subscribe(interface_filter(c, server@[i as int]@), Qos::ExactlyOnce));
            assert(r@.last()@ == subs[i as int]);
            assert(actions_view(r@) =~= actions_view(r0).push(r@.last()@));
            assert(actions_view(r@) =~= head + subs.subrange(0, i as int + 1));
        }
        i = i + 1;
    }
    assert(subs.subrange(0, server@.len() as int) =~= subs);
    r.push(MqttAction::Publish {
        topic: cid.clone(),
        qos: Qos::ExactlyOnce,
        retain: false,
        payload: PublishPayload::Text(text),
    });
    let mut ec = cid.clone();
    proof { reveal_strlit("/control/emptyCache"); reveal_strlit("1"); }
    ec.append("/control/emptyCache");
    r.push(MqttAction::Publish {
        topic: ec,
        qos: Qos::ExactlyOnce,
        retain: false,
        payload: PublishPayload::Text(String::from_str("1")),
    });
    let ghost mid = head + subs + seq![
        ActionView::Publish(c, Qos::ExactlyOnce, false, PayloadView::Text(introspection_of(interfaces@))),
        ActionView::Publish(empty_cache_topic(c), Qos::ExactlyOnce, false, PayloadView::Text("1"@)),
    ];
    assert(actions_view(r@) =~= mid);
    let ghost dv = props_view(device@);
    let ghost pubs = dv.map_values(|p: (PropKey, PropEntry)| ActionView::Publish(
        data_topic(c, p.0.0, p.0.1),
        Qos::ExactlyOnce,
        false,
        PayloadView::Envelope(ValueView::Item(item_of(p.1.value)), None),
    ));
    let mut i: usize = 0;
    while i < device.len()
        invariant
            c == cid@,
            dv == props_view(device@),
            pubs == dv.map_values(|p: (PropKey, PropEntry)| ActionView::Publish(
                data_topic(c, p.0.0, p.0.1),
                Qos::ExactlyOnce,
                false,
                PayloadView::Envelope(ValueView::Item(item_of(p.1.value)), None),
            )),
            i <= device@.len(),
            actions_view(r@) == mid + pubs.subrange(0, i as int),
        decreases device@.len() - i,
    {
        let p = &device[i];
        let mut topic = cid.clone();
        proof { reveal_strlit("/"); }
        topic.append("/");
        topic.append(p.interface.as_str());
        topic.append(p.path.as_str());
        assert(topic@ =~= data_topic(c, p.interface@, p.path@));
        let ghost r0 = r@;
        r.push(MqttAction::Publish {
            topic,
            qos: Qos::ExactlyOnce,
            retain: false,
            payload: PublishPayload::Envelope(Envelope { v: BsonValue::Item(encode_value(&p.value)), t: None }),
        });
        proof {
            assert(dv[i as int] == prop_view(*p));
            assert(r@.last()@ == pubs[i as int]);
            assert(actions_view(r@) =~= actions_view(r0).push(r@.last()@));
            assert(actions_view(r@) =~= mid + pubs.subrange(0, i as int + 1));
        }
        i = i + 1;
    }
    assert(pubs.subrange(0, device@.len() as int) =~= pubs);
    r
}

/// `r` lists the stored properties but the tombstones.
pub open spec fn lists_live(r: Seq<StoredProp>, m: PropMap) -> bool {
    lists(r, m, |k: PropKey, e: PropEntry| !is_tombstone(e))
}

/// The actions on a connection acknowledgement: none for a resumed session, the handshake
/// for a fresh one.
pub fn connack<S: PropertyStore>(client_id: &ClientId, interfaces: &Interfaces, store: &S, session_present: bool) -> (r: Vec<MqttAction>)
    requires
        interfaces.wf(),
        store.wf(),
    ensures
        session_present ==> r@.len() == 0,
        !session_present ==> exists|l: Seq<StoredProp>| #[trigger] lists_live(l, store.props())
            && actions_view(r@) == handshake_actions(
                client_id.spec_text(),
                interfaces@,
                surviving(interfaces@, props_view(l)),
            ),
{
    if session_present {
        return Vec::new();
    }
    let all = store.load_all_props();
    let ghost l = all@;
    let r = handshake(client_id, interfaces, all);
    assert(lists_live(l, store.props()));
    r
}

/// A property stays on a purge unless it is device-owned and not listed.
pub open spec fn purge_keeps(m: PropMap, listed: Set<Seq<char>>, k: PropKey) -> bool {
    m[k].ownership != Ownership::Device || listed.contains(k.0 + k.1)
}

/// The store after a purge directive listing `listed`.
pub open spec fn purged(m: PropMap, listed: Set<Seq<char>>) -> PropMap {
    m.restrict(m.dom().filter(|k: PropKey| purge_keeps(m, listed, k)))
}

/// A purge keeps a device-owned property exactly when the directive lists it, and leaves
/// server-owned properties alone.
pub proof fn lemma_purge_complement(m: PropMap, listed: Set<Seq<char>>, k: PropKey)
    requires
        m.contains_key(k),
    ensures
        m[k].ownership == Ownership::Device ==> (purged(m, listed).contains_key(k) <==> listed.contains(k.0 + k.1)),
        m[k].ownership == Ownership::Server ==> purged(m, listed).contains_key(k) && purged(m, listed)[k] == m[k],
{
}

/// Deletes every device-owned property, tombstones included, that the directive does not list.
pub fn purge_properties<S: PropertyStore>(store: &mut S, set: &PurgeSet)
    requires
        old(store).wf(),
    ensures
        final(store).wf(),
        final(store).props() == purged(old(store).props(), set@),
{
    let ghost m0 = store.props();
    let list = store.device_props_with_unset();
    let mut i: usize = 0;
    while i < list.len()
        invariant
            store.wf(),
            lists_with_unset(list@, m0),
            i <= list@.len(),
            forall|k: PropKey| #[trigger] store.props().contains_key(k) ==> m0.contains_key(k) && store.props()[k] == m0[k],
            forall|k: PropKey| #[trigger] m0.contains_key(k) ==> (store.props().contains_key(k) <==> (purge_keeps(m0, set@, k)
                || !exists|a: int| 0 <= a < i && ((#[trigger] list@[a]).interface@, list@[a].path@) == k)),
        decreases list@.len() - i,
    {
        let p = &list[i];
        let ghost k = (p.interface@, p.path@);
        let ghost before = store.props();
        if !set.contains(p.interface.as_str(), p.path.as_str()) {
            store.delete_prop(p.interface.as_str(), p.path.as_str());
        }
        proof {
            assert forall|k2: PropKey| #[trigger] m0.contains_key(k2) implies (store.props().contains_key(k2) <==> (purge_keeps(m0, set@, k2)
                || !exists|a: int| 0 <= a < i + 1 && ((#[trigger] list@[a]).interface@, list@[a].path@) == k2)) by {
                if k2 == k {
                    assert(((list@[i as int]).interface@, list@[i as int].path@) == k2);
                } else {
                    if exists|a: int| 0 <= a < i + 1 && ((#[trigger] list@[a]).interface@, list@[a].path@) == k2 {
                        let a = choose|a: int| 0 <= a < i + 1 && ((#[trigger] list@[a]).interface@, list@[a].path@) == k2;
                        assert(a != i);
                    }
                }
            }
        }
        i = i + 1;
    }
    proof {
        let m1 = store.props();
        assert forall|k: PropKey| m1.contains_key(k) <==> #[trigger] purged(m0, set@).contains_key(k) by {
            if m0.contains_key(k) && !purge_keeps(m0, set@, k) {
                assert(m0[k].ownership == Ownership::Device);
                let a = choose|a: int| 0 <= a < list@.len() && ((#[trigger] list@[a]).interface@, list@[a].path@) == k;
            }
        }
        assert(m1 =~= purged(m0, set@));
    }
}

} // verus!
