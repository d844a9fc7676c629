use astarte_device_sdk::topic::{ClientId, ParsedTopic, TopicError};

fn client_id() -> ClientId {
    ClientId::new("test", "u-WraCwtK_G_fjJf63TiAw")
}

#[test]
fn test_parse_topic() {
    let topic = "test/u-WraCwtK_G_fjJf63TiAw/com.interface.test/led/red".to_owned();
    let ParsedTopic::InterfacePath { interface, path } =
        ParsedTopic::try_parse(&client_id(), &topic).unwrap()
    else {
        panic!("Wrong variant parsed");
    };

    assert_eq!(interface, "com.interface.test");
    assert_eq!(path, "/led/red");
}

#[test]
fn test_parse_purge_properties_topic() {
    let topic = "test/u-WraCwtK_G_fjJf63TiAw/control/consumer/properties".to_owned();
    let parsed_topic = ParsedTopic::try_parse(&client_id(), &topic);

    assert!(matches!(parsed_topic, Ok(ParsedTopic::PurgeProperties)));
}

#[test]
fn test_parse_almost_purge_properties_topic() {
    let topic = "test/u-WraCwtK_G_fjJf63TiAw/control/consumer/properties/another".to_owned();
    let ParsedTopic::InterfacePath { interface, path } =
        ParsedTopic::try_parse(&client_id(), &topic).unwrap()
    else {
        panic!("Wrong variant parsed");
    };

    assert_eq!(interface, "control");
    assert_eq!(path, "/consumer/properties/another");
}

#[test]
fn test_parse_topic_empty() {
    let topic = "".to_owned();
    let err = ParsedTopic::try_parse(&client_id(), &topic).unwrap_err();

    assert!(matches!(err, TopicError::Empty));
}

#[test]
fn test_parse_topic_client_id() {
    let cid = client_id();
    let err = ParsedTopic::try_parse(&cid, &cid.as_text()).unwrap_err();

    assert!(matches!(err, TopicError::Malformed(_)));
}

#[test]
fn test_parse_topic_malformed() {
    let topic = "test/u-WraCwtK_G_fjJf63TiAw/com.interface.test".to_owned();
    let err = ParsedTopic::try_parse(&client_id(), &topic).unwrap_err();

    assert!(matches!(err, TopicError::Malformed(_)));
}

#[test]
fn test_parse_unknown_client_id() {
    let topic = "test/u-WraCwtK_G_different/com.interface.test/led/red".to_owned();
    let err = ParsedTopic::try_parse(&client_id(), &topic).unwrap_err();

    assert!(matches!(err, TopicError::UnknownClientId { .. }));
}

#[test]
fn topic_error_reports_the_topic() {
    let topic = "test/other/com.interface.test/led".to_owned();
    let err = ParsedTopic::try_parse(&client_id(), &topic).unwrap_err();
    assert_eq!(err.topic(), topic);
    assert_eq!(TopicError::Empty.topic(), "");
}

#[test]
fn topic_with_empty_interface_is_malformed() {
    let topic = "test/u-WraCwtK_G_fjJf63TiAw//led".to_owned();
    let err = ParsedTopic::try_parse(&client_id(), &topic).unwrap_err();
    assert!(matches!(err, TopicError::Malformed(_)));
}
