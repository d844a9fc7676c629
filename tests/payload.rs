use astarte_device_sdk::interface::{Aggregation, Interface, InterfaceType, Mapping, Ownership};

const PROP: InterfaceType = InterfaceType::Properties;
const DS: InterfaceType = InterfaceType::Datastream;
use astarte_device_sdk::path::MappingPath;
use astarte_device_sdk::payload::{
    deserialize_individual, deserialize_object, serialize_individual, serialize_object, BsonItem, BsonScalar, BsonValue, Envelope, PayloadError,
};
use astarte_device_sdk::types::{AstarteType, MappingType, TypeError};

fn round_trip(ty: MappingType, v: AstarteType, ts: Option<i64>) {
    let mut m = Mapping::new("/a", ty);
    m.explicit_timestamp = true;
    let env = serialize_individual(DS, &m, &v, ts).unwrap();
    let (back, t) = deserialize_individual(DS, &m, &env).unwrap();
    assert_eq!(back, v);
    assert_eq!(t, ts);
}

#[test]
fn individual_round_trip_every_type() {
    round_trip(MappingType::Double, AstarteType::Double(4.5f64.to_bits()), Some(1627580808000));
    round_trip(MappingType::Integer, AstarteType::Integer(-4), None);
    round_trip(MappingType::Boolean, AstarteType::Boolean(true), None);
    round_trip(MappingType::LongInteger, AstarteType::LongInteger(45543543534), None);
    round_trip(MappingType::String, AstarteType::String("hello".to_string()), Some(5));
    round_trip(MappingType::BinaryBlob, AstarteType::BinaryBlob(b"hello".to_vec()), None);
    round_trip(MappingType::DateTime, AstarteType::DateTime(1627580808000), None);
    round_trip(MappingType::DoubleArray, AstarteType::DoubleArray(vec![1.2f64.to_bits(), 3.4f64.to_bits()]), None);
    round_trip(MappingType::IntegerArray, AstarteType::IntegerArray(vec![1, 3, 5, 7]), None);
    round_trip(MappingType::BooleanArray, AstarteType::BooleanArray(vec![true, false]), None);
    round_trip(MappingType::LongIntegerArray, AstarteType::LongIntegerArray(vec![45543543534, 45543543535]), None);
    round_trip(MappingType::StringArray, AstarteType::StringArray(vec!["hello".to_string(), "world".to_string()]), None);
    round_trip(MappingType::BinaryBlobArray, AstarteType::BinaryBlobArray(vec![b"hello".to_vec(), b"world".to_vec()]), None);
    round_trip(MappingType::DateTimeArray, AstarteType::DateTimeArray(vec![1627580808000, 1627580809000]), None);
    round_trip(MappingType::StringArray, AstarteType::StringArray(vec![]), None);
}

#[test]
fn serialize_individual_encodes_value() {
    let m = Mapping::new("/1/name", MappingType::String);
    let env = serialize_individual(DS, &m, &AstarteType::String("value".to_string()), None).unwrap().unwrap();
    assert!(matches!(env, Envelope { v: BsonValue::Item(BsonItem::Scalar(BsonScalar::String(ref s))), t: None } if s == "value"));
}

#[test]
fn serialize_individual_errors() {
    let m = Mapping::new("/a", MappingType::Integer);
    assert_eq!(serialize_individual(DS, &m, &AstarteType::Unset, None).unwrap_err(), PayloadError::Unset);
    assert_eq!(serialize_individual(DS, &m, &AstarteType::Boolean(true), None).unwrap_err(), PayloadError::MismatchType);
    assert_eq!(serialize_individual(DS, &m, &AstarteType::Integer(1), Some(3)).unwrap_err(), PayloadError::UnexpectedTimestamp);
    let mut u = Mapping::new("/a", MappingType::Integer);
    u.allow_unset = true;
    assert!(serialize_individual(PROP, &u, &AstarteType::Unset, None).unwrap().is_none());
    assert_eq!(serialize_individual(DS, &u, &AstarteType::Unset, None).unwrap_err(), PayloadError::Unset);
}

#[test]
fn deserialize_individual_checks_mapping() {
    let m = Mapping::new("/a", MappingType::LongInteger);
    let small = Some(Envelope { v: BsonValue::Item(BsonItem::Scalar(BsonScalar::Int32(7))), t: None });
    assert_eq!(deserialize_individual(DS, &m, &small).unwrap().0, AstarteType::LongInteger(7));
    let wrong = Some(Envelope { v: BsonValue::Item(BsonItem::Scalar(BsonScalar::Boolean(true))), t: None });
    assert_eq!(deserialize_individual(DS, &m, &wrong).unwrap_err(), PayloadError::MismatchType);
    assert_eq!(deserialize_individual(DS, &m, &None).unwrap_err(), PayloadError::Unset);
    let doc = Some(Envelope { v: BsonValue::Document(vec![]), t: None });
    assert_eq!(deserialize_individual(DS, &m, &doc).unwrap_err(), PayloadError::UnexpectedShape);
    let mut u = Mapping::new("/a", MappingType::LongInteger);
    u.allow_unset = true;
    assert_eq!(deserialize_individual(PROP, &u, &None).unwrap().0, AstarteType::Unset);
    assert_eq!(deserialize_individual(DS, &u, &None).unwrap_err(), PayloadError::Unset);
}

#[test]
fn double_conversion_rejects_non_finite() {
    assert_eq!(AstarteType::try_from_double_bits(f64::NAN.to_bits()), Err(TypeError::Conversion));
    assert_eq!(AstarteType::try_from_double_bits(f64::INFINITY.to_bits()), Err(TypeError::Conversion));
    assert_eq!(AstarteType::try_from_double_bits(15.5f64.to_bits()), Ok(AstarteType::Double(15.5f64.to_bits())));
    assert_eq!(
        AstarteType::try_from_double_bits_array(&vec![1.0f64.to_bits(), f64::NEG_INFINITY.to_bits()]),
        Err(TypeError::Conversion)
    );
}

#[test]
fn values_compare_structurally() {
    assert_eq!(AstarteType::BinaryBlobArray(vec![vec![1, 2]]), AstarteType::BinaryBlobArray(vec![vec![1, 2]]));
    assert_ne!(AstarteType::BinaryBlobArray(vec![vec![1, 2]]), AstarteType::BinaryBlobArray(vec![vec![1, 3]]));
    assert_ne!(AstarteType::Integer(1), AstarteType::LongInteger(1));
    assert_eq!(AstarteType::Integer(1).mapping_type(), Some(MappingType::Integer));
    assert_eq!(AstarteType::Unset.mapping_type(), None);
}

#[test]
fn object_round_trip() {
    let mut a = Mapping::new("/%{id}/a", MappingType::LongInteger);
    a.explicit_timestamp = true;
    let mut b = Mapping::new("/%{id}/b", MappingType::StringArray);
    b.explicit_timestamp = true;
    let object = Interface::new("com.example.Obj", 1, 0, InterfaceType::Datastream, Ownership::Device, Aggregation::Object, vec![a, b]).unwrap();
    let path = MappingPath::try_from("/7").unwrap();
    let data = vec![
        ("b".to_string(), AstarteType::StringArray(vec!["x".to_string()])),
        ("a".to_string(), AstarteType::LongInteger(-3)),
    ];
    let env = serialize_object(&object, &path, &data, Some(42)).unwrap();
    let (back, t) = deserialize_object(&object, &path, &env).unwrap();
    assert_eq!(back, data);
    assert_eq!(t, Some(42));
    let wrong = Envelope { v: BsonValue::Item(BsonItem::Null), t: None };
    assert_eq!(deserialize_object(&object, &path, &wrong).unwrap_err(), PayloadError::UnexpectedShape);
}

#[test]
fn host_conversions() {
    assert_eq!(AstarteType::from(5i32), AstarteType::Integer(5));
    assert_eq!(AstarteType::from(5i64), AstarteType::LongInteger(5));
    assert_eq!(AstarteType::from(u32::MAX), AstarteType::LongInteger(u32::MAX as i64));
    assert_eq!(AstarteType::from(true), AstarteType::Boolean(true));
    assert_eq!(AstarteType::try_from_u64(7), Ok(AstarteType::LongInteger(7)));
    assert_eq!(AstarteType::try_from_u64(u64::MAX), Err(TypeError::Conversion));
}
