use astarte_device_sdk::interface::{
    Aggregation, Interface, InterfaceError, InterfaceType, Mapping, Ownership, Reliability,
};
use astarte_device_sdk::options::{BuilderError, DeviceBuilder, MqttConfig};
use astarte_device_sdk::types::MappingType;

/// The interfaces of the individual datastream example directory.
fn individual_datastream_interfaces() -> Vec<Interface> {
    let mut led = Mapping::new("/%{sensor_id}/led", MappingType::Boolean);
    led.explicit_timestamp = true;
    let server = Interface::new(
        "org.astarte-platform.rust.examples.individual-datastream.ServerDatastream",
        0,
        1,
        InterfaceType::Datastream,
        Ownership::Server,
        Aggregation::Individual,
        vec![led],
    )
    .unwrap();

    let mut value = Mapping::new("/%{sensor_id}/value", MappingType::Double);
    value.explicit_timestamp = true;
    value.reliability = Reliability::Guaranteed;
    let device = Interface::new(
        "org.astarte-platform.rust.examples.individual-datastream.DeviceDatastream",
        0,
        1,
        InterfaceType::Datastream,
        Ownership::Device,
        Aggregation::Individual,
        vec![value],
    )
    .unwrap();

    vec![device, server]
}

#[test]
fn interface_directory() {
    let res = DeviceBuilder::new().interface_directory(individual_datastream_interfaces());

    assert!(
        res.is_ok(),
        "Failed to load interfaces from directory: {:?}",
        res.err()
    );
}

#[test]
fn interface_existing_directory() {
    let res = DeviceBuilder::new()
        .interface_directory(individual_datastream_interfaces())
        .unwrap()
        .interface_directory(individual_datastream_interfaces());

    assert!(
        res.is_ok(),
        "Failed to load interfaces from directory: {:?}",
        res.err()
    );
}

#[test]
fn builder_refuses_older_version() {
    let newer = Interface::new(
        "com.example.Versioned",
        1,
        0,
        InterfaceType::Datastream,
        Ownership::Device,
        Aggregation::Individual,
        vec![Mapping::new("/value", MappingType::Integer)],
    )
    .unwrap();
    let older = Interface::new(
        "com.example.Versioned",
        0,
        3,
        InterfaceType::Datastream,
        Ownership::Device,
        Aggregation::Individual,
        vec![Mapping::new("/value", MappingType::Integer)],
    )
    .unwrap();
    let res = DeviceBuilder::new().interface(newer).unwrap().interface(older);
    assert!(matches!(
        res.err(),
        Some(BuilderError::Interface(InterfaceError::VersionChange { .. }))
    ));
}

#[test]
fn mqtt_config_defaults_and_setters() {
    let cfg = MqttConfig::new("realm", "device_id", "sec", "pairing_url");
    assert_eq!(cfg.keepalive_secs, 30);
    assert!(!cfg.ignore_ssl_errors);
    let cfg = cfg.keepalive(90).ignore_ssl_errors();
    assert_eq!(cfg.keepalive_secs, 90);
    assert!(cfg.ignore_ssl_errors);
    assert_eq!(cfg.client_id().as_text(), "realm/device_id");
}
