use std::io::Write;

use astarte_device_sdk::connection::{MqttAction, PublishPayload, Qos};
use astarte_device_sdk::device::{Aggregation, AstarteDeviceSdk};
use astarte_device_sdk::error::Error;
use astarte_device_sdk::interface::{
    Aggregation as InterfaceAggregation, Interface, InterfaceType, Mapping, Ownership, Reliability,
};
use astarte_device_sdk::options::DeviceBuilder;
use astarte_device_sdk::payload::{BsonField, BsonItem, BsonScalar, BsonValue, Envelope, PayloadError};
use astarte_device_sdk::properties::PropertiesError;
use astarte_device_sdk::store::{MemoryStore, PropertyStore, StoreInterfaceData, StoredProp};
use astarte_device_sdk::topic::ClientId;
use astarte_device_sdk::types::{AstarteType, MappingType};

const DP: &str = "com.example.DP";
const OD: &str = "com.example.OD";
const SERVER_DS: &str = "org.astarte-platform.rust.examples.individual-datastream.ServerDatastream";
const OBJECT_DS: &str = "org.astarte-platform.rust.examples.object-datastream.DeviceDatastream";

fn device_properties() -> Interface {
    let mut name = Mapping::new("/%{sensor_id}/name", MappingType::String);
    name.allow_unset = true;
    name.reliability = Reliability::Unique;
    Interface::new(DP, 0, 1, InterfaceType::Properties, Ownership::Device, InterfaceAggregation::Individual, vec![name]).unwrap()
}

fn object_mappings() -> Vec<Mapping> {
    vec![
        Mapping::new("/%{sensor_id}/endpoint1", MappingType::Double),
        Mapping::new("/%{sensor_id}/endpoint2", MappingType::String),
        Mapping::new("/%{sensor_id}/endpoint3", MappingType::BooleanArray),
    ]
}

fn object_datastream(name: &str) -> Interface {
    Interface::new(name, 0, 1, InterfaceType::Datastream, Ownership::Device, InterfaceAggregation::Object, object_mappings()).unwrap()
}

fn server_datastream() -> Interface {
    let mut led = Mapping::new("/%{sensor_id}/led", MappingType::Boolean);
    led.explicit_timestamp = true;
    Interface::new(SERVER_DS, 0, 1, InterfaceType::Datastream, Ownership::Server, InterfaceAggregation::Individual, vec![led]).unwrap()
}

fn device_with(interfaces: Vec<Interface>) -> AstarteDeviceSdk<MemoryStore> {
    DeviceBuilder::new()
        .interface_directory(interfaces)
        .unwrap()
        .build(ClientId::new("realm", "device_id"))
}

fn payload_is_string(p: &PublishPayload, s: &str) -> bool {
    matches!(p, PublishPayload::Envelope(Envelope { v: BsonValue::Item(BsonItem::Scalar(BsonScalar::String(x))), t: None }) if x == s)
}

#[test]
fn property_send_then_store() {
    let mut device = device_with(vec![device_properties()]);
    let publish = device
        .send(DP, "/1/name", AstarteType::String("value".to_string()), None)
        .unwrap()
        .expect("a publish");
    assert_eq!(publish.topic, "realm/device_id/com.example.DP/1/name");
    assert_eq!(publish.qos, Qos::ExactlyOnce);
    assert!(payload_is_string(&publish.payload, "value"));
    device.sent(&publish);

    let val = device.get_property(DP, "/1/name").unwrap();
    assert_eq!(val, Some(AstarteType::String("value".to_string())));
}

#[test]
fn test_property_set_unset() {
    let mut device = device_with(vec![device_properties()]);
    let expected = AstarteType::String("value".to_string());
    let p = device.send(DP, "/1/name", expected.clone(), None).unwrap().unwrap();
    device.sent(&p);
    assert_eq!(device.get_property(DP, "/1/name").unwrap(), Some(expected));

    let p = device.unset(DP, "/1/name").unwrap().unwrap();
    assert_eq!(p.topic, "realm/device_id/com.example.DP/1/name");
    assert!(matches!(p.payload, PublishPayload::Empty));
    device.sent(&p);
    assert_eq!(device.get_property(DP, "/1/name").unwrap(), None);

    let with_unset = device.store().device_props_with_unset();
    assert_eq!(with_unset.len(), 1);
    assert_eq!(with_unset[0].interface, DP);
    assert_eq!(with_unset[0].path, "/1/name");
    assert!(with_unset[0].value.is_none());
}

#[test]
fn test_unset_property() {
    let mut device = device_with(vec![device_properties()]);
    let p = device
        .send(DP, "/1/name", AstarteType::String("name number 1".to_string()), None)
        .unwrap()
        .unwrap();
    assert_eq!(p.topic, "realm/device_id/com.example.DP/1/name");
    assert!(payload_is_string(&p.payload, "name number 1"));
    device.sent(&p);
    let p = device.unset(DP, "/1/name").unwrap().unwrap();
    assert_eq!(p.topic, "realm/device_id/com.example.DP/1/name");
    assert!(matches!(p.payload, PublishPayload::Empty));
}

#[test]
fn sending_the_same_property_twice_publishes_once() {
    let mut device = device_with(vec![device_properties()]);
    let v = AstarteType::String("name number 1".to_string());
    let first = device.send(DP, "/1/name", v.clone(), None).unwrap();
    let first = first.expect("first send publishes");
    device.sent(&first);
    let second = device.send(DP, "/1/name", v, None).unwrap();
    assert!(second.is_none());
    let third = device
        .send(DP, "/1/name", AstarteType::String("other".to_string()), None)
        .unwrap();
    assert!(third.is_some());
}

#[test]
fn test_connack_client_response() {
    let device = device_with(vec![object_datastream(OBJECT_DS), server_datastream()]);
    assert!(device.connack(true).is_empty());
    let actions = device.connack(false);
    assert_eq!(actions.len(), 4);
    match &actions[0] {
        MqttAction::Subscribe { topic, qos } => {
            assert_eq!(topic, "realm/device_id/control/consumer/properties");
            assert_eq!(*qos, Qos::ExactlyOnce);
        }
        a => panic!("unexpected {a:?}"),
    }
    match &actions[1] {
        MqttAction::Subscribe { topic, .. } => assert_eq!(topic, &format!("realm/device_id/{SERVER_DS}/#")),
        a => panic!("unexpected {a:?}"),
    }
    match &actions[2] {
        MqttAction::Publish { topic, retain, payload: PublishPayload::Text(t), .. } => {
            assert_eq!(topic, "realm/device_id");
            assert!(!retain);
            assert_eq!(t, &format!("{SERVER_DS}:0:1;{OBJECT_DS}:0:1"));
        }
        a => panic!("unexpected {a:?}"),
    }
    match &actions[3] {
        MqttAction::Publish { topic, payload: PublishPayload::Text(t), .. } => {
            assert_eq!(topic, "realm/device_id/control/emptyCache");
            assert_eq!(t, "1");
        }
        a => panic!("unexpected {a:?}"),
    }
}

#[test]
fn handshake_republishes_device_properties() {
    let mut device = device_with(vec![device_properties()]);
    let p = device.send(DP, "/1/name", AstarteType::String("name number 1".to_string()), None).unwrap().unwrap();
    device.sent(&p);
    let actions = device.connack(false);
    assert_eq!(actions.len(), 4);
    match &actions[3] {
        MqttAction::Publish { topic, payload, .. } => {
            assert_eq!(topic, "realm/device_id/com.example.DP/1/name");
            assert!(payload_is_string(payload, "name number 1"));
        }
        a => panic!("unexpected {a:?}"),
    }
}

#[test]
fn lib_test_receive_object() {
    let mut device = device_with(vec![object_datastream(OD)]);
    let env = Envelope {
        v: BsonValue::Document(vec![
            BsonField { key: "endpoint1".to_string(), value: BsonItem::Scalar(BsonScalar::Double(4.2f64.to_bits())) },
            BsonField { key: "endpoint2".to_string(), value: BsonItem::Scalar(BsonScalar::String("obj".to_string())) },
            BsonField { key: "endpoint3".to_string(), value: BsonItem::Array(vec![BsonScalar::Boolean(true)]) },
        ]),
        t: None,
    };
    let event = device.handle_event(OD, "/1", &Some(env)).unwrap();
    assert_eq!(event.interface, OD);
    assert_eq!(event.path, "/1");
    let Aggregation::Object(mut obj) = event.data else {
        panic!("Unexpected data format");
    };
    obj.sort_by(|a, b| a.0.cmp(&b.0));
    assert_eq!(
        obj,
        vec![
            ("endpoint1".to_string(), AstarteType::Double(4.2f64.to_bits())),
            ("endpoint2".to_string(), AstarteType::String("obj".to_string())),
            ("endpoint3".to_string(), AstarteType::BooleanArray(vec![true])),
        ]
    );
}

#[test]
fn test_handle_event() {
    let mut enable = Mapping::new("/%{sensor_id}/enable", MappingType::Boolean);
    enable.allow_unset = true;
    let server_props = Interface::new(
        "com.example.SP", 0, 1, InterfaceType::Properties, Ownership::Server, InterfaceAggregation::Individual, vec![enable],
    ).unwrap();
    let mut device = device_with(vec![server_props]);
    let env = Envelope { v: BsonValue::Item(BsonItem::Scalar(BsonScalar::Boolean(true))), t: None };
    let event = device.handle_event("com.example.SP", "/1/enable", &Some(env)).unwrap();
    assert_eq!(event.path, "/1/enable");
    assert!(matches!(event.data, Aggregation::Individual(AstarteType::Boolean(true))));
    assert_eq!(device.get_property("com.example.SP", "/1/enable").unwrap(), Some(AstarteType::Boolean(true)));

    let event = device.handle_event("com.example.SP", "/1/enable", &None).unwrap();
    assert!(matches!(event.data, Aggregation::Individual(AstarteType::Unset)));
    assert_eq!(device.get_property("com.example.SP", "/1/enable").unwrap(), None);
}

#[test]
fn receive_on_missing_interface_fails() {
    let mut device = device_with(vec![device_properties()]);
    let env = Envelope { v: BsonValue::Item(BsonItem::Scalar(BsonScalar::Boolean(true))), t: None };
    assert!(matches!(device.handle_event("com.example.Missing", "/1", &Some(env)), Err(Error::MissingInterface(_))));
}

fn purge_payload(text: &[u8]) -> Vec<u8> {
    let mut enc = flate2::write::ZlibEncoder::new(Vec::new(), flate2::Compression::default());
    enc.write_all(text).unwrap();
    let compressed = enc.finish().unwrap();
    let mut out = (text.len() as u32).to_le_bytes().to_vec();
    out.extend_from_slice(&compressed);
    out
}

fn prop(interface: &str, path: &str, v: i32, ownership: Ownership) -> StoredProp {
    StoredProp {
        interface: interface.to_string(),
        path: path.to_string(),
        value: AstarteType::Integer(v),
        interface_major: 0,
        ownership,
    }
}

#[test]
fn property_purge() {
    let mut store = MemoryStore::new();
    store.store_prop(&prop("A", "/p1", 1, Ownership::Device));
    store.store_prop(&prop("A", "/p2", 2, Ownership::Device));
    store.store_prop(&prop("B", "/p3", 3, Ownership::Device));
    store.store_prop(&prop("S", "/p4", 4, Ownership::Server));
    let mut device = DeviceBuilder::with_store(store).build(ClientId::new("realm", "device_id"));

    device.purge_properties(&purge_payload(b"A/p1;B/p3")).unwrap();

    let mut keys: Vec<(String, String)> = device
        .store()
        .load_all_props()
        .into_iter()
        .map(|p| (p.interface, p.path))
        .collect();
    keys.sort();
    assert_eq!(
        keys,
        vec![
            ("A".to_string(), "/p1".to_string()),
            ("B".to_string(), "/p3".to_string()),
            ("S".to_string(), "/p4".to_string()),
        ]
    );
}

#[test]
fn purge_drops_tombstones() {
    let mut store = MemoryStore::new();
    store.store_prop(&prop("A", "/p1", 1, Ownership::Device));
    store.unset_prop(&StoreInterfaceData::new("A", Ownership::Device), "/p1");
    assert_eq!(store.device_props_with_unset().len(), 1);
    let mut device = DeviceBuilder::with_store(store).build(ClientId::new("realm", "device_id"));
    device.purge_properties(&purge_payload(b"")).unwrap();
    assert!(device.store().device_props_with_unset().is_empty());
}

#[test]
fn purge_payload_errors() {
    let mut device = device_with(vec![device_properties()]);
    assert_eq!(device.purge_properties(&[1, 2, 3]), Err(Error::Properties(PropertiesError::PayloadTooShort)));
    assert_eq!(device.purge_properties(&[4, 0, 0, 0, 1, 2, 3, 4]), Err(Error::Properties(PropertiesError::Decompress)));
    assert_eq!(device.purge_properties(&purge_payload(&[0xff, 0xfe, 0x41])), Err(Error::Properties(PropertiesError::Utf8)));
    let mut wrong = purge_payload(b"A/p1");
    wrong[0] = 9;
    assert_eq!(device.purge_properties(&wrong), Err(Error::Properties(PropertiesError::SizeMismatch)));
}

#[test]
fn version_major_mismatch_drop() {
    let mut store = MemoryStore::new();
    let mut p = prop("I", "/x", 7, Ownership::Device);
    p.interface_major = 1;
    store.store_prop(&p);
    let data = StoreInterfaceData::new("I", Ownership::Device);
    assert_eq!(store.load_prop(&data, "/x", 2), None);
    assert_eq!(store.load_prop(&data, "/x", 2), None);
    assert_eq!(store.load_prop(&data, "/x", 1), None);
    assert!(store.load_all_props().is_empty());
}

fn object_data(extra: bool, missing: bool, wrong: bool) -> Vec<(String, AstarteType)> {
    let mut d = vec![
        ("endpoint1".to_string(), if wrong { AstarteType::Integer(1) } else { AstarteType::Double(1.5f64.to_bits()) }),
        ("endpoint2".to_string(), AstarteType::String("x".to_string())),
    ];
    if !missing {
        d.push(("endpoint3".to_string(), AstarteType::BooleanArray(vec![true, false])));
    }
    if extra {
        d.push(("endpoint4".to_string(), AstarteType::Boolean(true)));
    }
    d
}

#[test]
fn object_send_checks_keys_and_types() {
    let device = device_with(vec![object_datastream(OD)]);
    let ok = device.send_object(OD, "/1", &object_data(false, false, false), None).unwrap();
    assert_eq!(ok.topic, "realm/device_id/com.example.OD/1");
    assert!(matches!(
        device.send_object(OD, "/1", &object_data(false, true, false), None),
        Err(Error::Payload(PayloadError::MissingOrExtraKey))
    ));
    assert!(matches!(
        device.send_object(OD, "/1", &object_data(true, false, false), None),
        Err(Error::Payload(PayloadError::MissingOrExtraKey))
    ));
    assert!(matches!(
        device.send_object(OD, "/1", &object_data(false, false, true), None),
        Err(Error::Payload(PayloadError::MismatchType))
    ));
    assert!(matches!(
        device.send_object(OD, "/1", &object_data(false, false, false), Some(0)),
        Err(Error::Payload(PayloadError::UnexpectedTimestamp))
    ));
}

#[test]
fn unset_on_datastream_fails_before_transmit() {
    let mut device = device_with(vec![server_datastream(), object_datastream(OD)]);
    assert!(matches!(
        device.send(SERVER_DS, "/1/led", AstarteType::Unset, None),
        Err(Error::Payload(PayloadError::Unset))
    ));
    assert!(matches!(
        device.send(OD, "/1/endpoint1", AstarteType::Double(1.0f64.to_bits()), None),
        Err(Error::Aggregation { .. })
    ));
}

#[test]
fn unset_on_unsettable_datastream_fails() {
    let mut m = Mapping::new("/%{sensor_id}/level", MappingType::Integer);
    m.allow_unset = true;
    let ds = Interface::new("com.example.DS", 0, 1, InterfaceType::Datastream, Ownership::Device, InterfaceAggregation::Individual, vec![m]).unwrap();
    let mut device = device_with(vec![ds]);
    assert!(matches!(device.unset("com.example.DS", "/1/level"), Err(Error::Payload(PayloadError::Unset))));
    assert!(matches!(
        device.send("com.example.DS", "/1/level", AstarteType::Unset, None),
        Err(Error::Payload(PayloadError::Unset))
    ));
    assert!(matches!(
        device.handle_event("com.example.DS", "/1/level", &None),
        Err(Error::Payload(PayloadError::Unset))
    ));
    assert!(device.store().load_all_props().is_empty());
}

#[test]
fn parametric_segment_binds_one_level() {
    let mut device = device_with(vec![device_properties()]);
    let v = || AstarteType::String("v".to_string());
    assert!(device.send(DP, "/1/name", v(), None).unwrap().is_some());
    assert!(device.send(DP, "/abc/name", v(), None).unwrap().is_some());
    assert!(matches!(device.send(DP, "/1/2/name", v(), None), Err(Error::MissingMapping { .. })));
    assert!(matches!(device.send(DP, "/name", v(), None), Err(Error::MissingMapping { .. })));
}

#[test]
fn errors_name_interface_and_path() {
    let mut device = device_with(vec![device_properties(), object_datastream(OD)]);
    match device.send_object("com.example.None", "/1", &Vec::new(), None) {
        Err(Error::MissingInterface(n)) => assert_eq!(n, "com.example.None"),
        other => panic!("unexpected {other:?}"),
    }
    match device.handle_event("com.example.None", "/1", &None) {
        Err(Error::MissingInterface(n)) => assert_eq!(n, "com.example.None"),
        other => panic!("unexpected {:?}", other.map(|e| e.path)),
    }
    match device.handle_event(DP, "/1/other", &None) {
        Err(Error::MissingMapping { interface, mapping }) => {
            assert_eq!(interface, DP);
            assert_eq!(mapping, "/1/other");
        }
        other => panic!("unexpected {:?}", other.map(|e| e.path)),
    }
    match device.remove_interface("com.example.None") {
        Err(Error::Interface(astarte_device_sdk::interface::InterfaceError::InterfaceNotFound { name })) => {
            assert_eq!(name, "com.example.None")
        }
        other => panic!("unexpected {:?}", other.map(|a| a.len())),
    }
}

#[test]
fn send_errors() {
    let mut device = device_with(vec![device_properties()]);
    assert!(matches!(device.send(DP, "no/slash", AstarteType::Integer(1), None), Err(Error::InvalidEndpoint(_))));
    assert!(matches!(device.send("com.example.None", "/1/name", AstarteType::Integer(1), None), Err(Error::MissingInterface(_))));
    assert!(matches!(device.send(DP, "/1/other", AstarteType::Integer(1), None), Err(Error::MissingMapping { .. })));
    assert!(matches!(device.send(DP, "/1/name", AstarteType::Integer(1), None), Err(Error::Payload(PayloadError::MismatchType))));
    assert!(matches!(
        device.send(DP, "/1/name", AstarteType::String("x".to_string()), Some(10)),
        Err(Error::Payload(PayloadError::UnexpectedTimestamp))
    ));
    assert!(matches!(
        device.send_object(DP, "/1", &Vec::new(), None),
        Err(Error::Aggregation { .. })
    ));
}

#[test]
fn test_add_remove_interface() {
    let mut device = device_with(vec![]);
    let acts = device.add_interface(server_datastream()).unwrap();
    assert_eq!(acts.len(), 2);
    assert!(matches!(&acts[0], MqttAction::Subscribe { topic, .. } if *topic == format!("realm/device_id/{SERVER_DS}/#")));
    assert!(matches!(&acts[1], MqttAction::Publish { topic, payload: PublishPayload::Text(t), .. }
        if topic == "realm/device_id" && *t == format!("{SERVER_DS}:0:1")));
    let acts = device.remove_interface(SERVER_DS).unwrap();
    assert_eq!(acts.len(), 2);
    assert!(matches!(&acts[0], MqttAction::Publish { payload: PublishPayload::Text(t), .. } if t.is_empty()));
    assert!(matches!(&acts[1], MqttAction::Unsubscribe { topic } if *topic == format!("realm/device_id/{SERVER_DS}/#")));
    assert!(device.remove_interface(SERVER_DS).is_err());
}

#[test]
fn remove_interface_deletes_its_properties() {
    let mut device = device_with(vec![device_properties()]);
    let p = device.send(DP, "/1/name", AstarteType::String("v".to_string()), None).unwrap().unwrap();
    device.sent(&p);
    assert_eq!(device.store().load_all_props().len(), 1);
    device.remove_interface(DP).unwrap();
    assert!(device.store().load_all_props().is_empty());
}
