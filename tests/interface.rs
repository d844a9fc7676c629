use astarte_device_sdk::interface::{
    Aggregation, DatabaseRetentionPolicy, Interface, InterfaceError, InterfaceType, Mapping, Ownership,
    Reliability,
};
use astarte_device_sdk::interfaces::Interfaces;
use astarte_device_sdk::path::MappingPath;
use astarte_device_sdk::types::MappingType;

fn iface(agg: Aggregation, kind: InterfaceType, mappings: Vec<Mapping>) -> Result<Interface, InterfaceError> {
    Interface::new("com.example.Test", 0, 1, kind, Ownership::Device, agg, mappings)
}

#[test]
fn mapping_path_boundaries() {
    assert!(MappingPath::try_from("").is_err());
    assert!(MappingPath::try_from("/").is_err());
    assert!(MappingPath::try_from("/a/").is_err());
    assert!(MappingPath::try_from("/a//b").is_err());
    assert!(MappingPath::try_from("a/b").is_err());
    assert!(MappingPath::try_from("/a/#").is_err());
    assert_eq!(MappingPath::try_from("/rooms/1/temp").unwrap().as_str(), "/rooms/1/temp");
    let p = MappingPath::try_from("/rooms/1/temp").unwrap();
    assert!(p.matches_endpoint("/rooms/%{room}/temp"));
    assert!(!p.matches_endpoint("/rooms/%{room}"));
    assert!(!p.matches_endpoint("/halls/%{room}/temp"));
}

#[test]
fn interface_validation_errors() {
    let m = || vec![Mapping::new("/a", MappingType::Integer)];
    assert_eq!(
        Interface::new("x", 0, 0, InterfaceType::Datastream, Ownership::Device, Aggregation::Individual, m()).unwrap_err(),
        InterfaceError::MajorMinor
    );
    assert_eq!(iface(Aggregation::Individual, InterfaceType::Datastream, vec![]).unwrap_err(), InterfaceError::EmptyMappings);
    assert_eq!(iface(Aggregation::Object, InterfaceType::Properties, m()).unwrap_err(), InterfaceError::PropertyObject);
    assert!(matches!(
        iface(Aggregation::Individual, InterfaceType::Datastream, vec![Mapping::new("a", MappingType::Integer)]),
        Err(InterfaceError::InvalidEndpoint { .. })
    ));
    assert!(matches!(
        iface(Aggregation::Individual, InterfaceType::Datastream, vec![
            Mapping::new("/%{a}/x", MappingType::Integer),
            Mapping::new("/%{b}/x", MappingType::Double),
        ]),
        Err(InterfaceError::DuplicateMapping { .. })
    ));
    let mut ttl = Mapping::new("/a", MappingType::Integer);
    ttl.database_retention_policy = DatabaseRetentionPolicy::UseTtl;
    assert!(matches!(iface(Aggregation::Individual, InterfaceType::Datastream, vec![ttl]), Err(InterfaceError::MissingTtl { .. })));
    assert!(matches!(iface(Aggregation::Object, InterfaceType::Datastream, m()), Err(InterfaceError::ObjectEndpointTooShort { .. })));
    assert!(matches!(
        iface(Aggregation::Object, InterfaceType::Datastream, vec![
            Mapping::new("/a/x", MappingType::Integer),
            Mapping::new("/b/y", MappingType::Integer),
        ]),
        Err(InterfaceError::InconsistentEndpoints { .. })
    ));
    let mut other = Mapping::new("/a/y", MappingType::Integer);
    other.reliability = Reliability::Unique;
    assert!(matches!(
        iface(Aggregation::Object, InterfaceType::Datastream, vec![Mapping::new("/a/x", MappingType::Integer), other]),
        Err(InterfaceError::InconsistentMapping { .. })
    ));
}

#[test]
fn maximum_mapping_count() {
    let many = |n: usize| (0..n).map(|i| Mapping::new(&format!("/m{i}"), MappingType::Integer)).collect::<Vec<_>>();
    assert!(iface(Aggregation::Individual, InterfaceType::Datastream, many(1024)).is_ok());
    assert_eq!(
        iface(Aggregation::Individual, InterfaceType::Datastream, many(1025)).unwrap_err(),
        InterfaceError::TooManyMappings
    );
}

#[test]
fn interface_mapping_is_stable_and_matches() {
    let mut cat = Interfaces::new();
    cat.add(iface(Aggregation::Individual, InterfaceType::Datastream, vec![
        Mapping::new("/%{room}/temp", MappingType::Double),
        Mapping::new("/%{room}/open", MappingType::Boolean),
    ]).unwrap()).unwrap();
    let p = MappingPath::try_from("/kitchen/open").unwrap();
    let a = cat.interface_mapping("com.example.Test", &p).unwrap();
    let b = cat.interface_mapping("com.example.Test", &p).unwrap();
    assert_eq!(a.mapping_type, MappingType::Boolean);
    assert_eq!(a.mapping_type, b.mapping_type);
    assert_eq!(a.endpoint, "/%{room}/open");
    assert!(p.matches_endpoint(&a.endpoint));
    assert!(cat.interface_mapping("com.example.Test", &MappingPath::try_from("/kitchen").unwrap()).is_err());
    assert!(cat.interface_mapping("com.example.Other", &p).is_err());
}

#[test]
fn catalog_introspection_is_sorted() {
    let mut cat = Interfaces::new();
    for (name, major, minor) in [("org.b", 1, 10), ("org.a", 0, 2)] {
        cat.add(Interface::new(name, major, minor, InterfaceType::Datastream, Ownership::Device, Aggregation::Individual,
            vec![Mapping::new("/v", MappingType::Integer)]).unwrap()).unwrap();
    }
    assert_eq!(cat.get_introspection_string(), "org.a:0:2;org.b:1:10");
    assert!(cat.remove("org.a").is_some());
    assert_eq!(cat.get_introspection_string(), "org.b:1:10");
    assert!(cat.get("org.a").is_none());
}
