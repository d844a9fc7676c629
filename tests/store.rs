use astarte_device_sdk::interface::Ownership;
use astarte_device_sdk::store::{MemoryStore, PropertyStore, StoreInterfaceData, StoredProp};
use astarte_device_sdk::types::AstarteType;

fn prop(interface: &str, path: &str, value: AstarteType, major: i32, ownership: Ownership) -> StoredProp {
    StoredProp { interface: interface.to_string(), path: path.to_string(), value, interface_major: major, ownership }
}

#[test]
fn memory_store_semantics() {
    let mut store = MemoryStore::new();
    let data = StoreInterfaceData::new("com.test", Ownership::Device);
    let ty = AstarteType::Integer(23);

    assert_eq!(store.load_prop(&data, "/test", 1), None);
    store.store_prop(&prop("com.test", "/test", ty.clone(), 1, Ownership::Device));
    assert_eq!(store.load_prop(&data, "/test", 1), Some(ty.clone()));
    assert_eq!(store.load_prop(&data, "/test", 2), None);
    assert_eq!(store.load_prop(&data, "/test", 1), None);

    store.store_prop(&prop("com.test", "/test", ty.clone(), 1, Ownership::Device));
    store.unset_prop(&data, "/test");
    assert_eq!(store.load_prop(&data, "/test", 1), None);
    assert!(store.device_props().is_empty());
    assert!(store.load_all_props().is_empty());
    assert!(store.server_props().is_empty());
    let with_unset = store.device_props_with_unset();
    assert_eq!(with_unset.len(), 1);
    assert!(with_unset[0].value.is_none());

    store.store_prop(&prop("com.test", "/test", ty.clone(), 1, Ownership::Device));
    store.delete_prop("com.test", "/test");
    assert_eq!(store.load_prop(&data, "/test", 1), None);

    store.store_prop(&prop("com.test", "/test", ty.clone(), 1, Ownership::Device));
    store.clear();
    assert_eq!(store.load_prop(&data, "/test", 1), None);

    store.store_prop(&prop("com.test1", "/test1", ty.clone(), 1, Ownership::Device));
    store.store_prop(&prop("com.test2", "/test2", ty.clone(), 1, Ownership::Server));
    assert_eq!(store.load_all_props().len(), 2);
    let dev = store.device_props();
    assert_eq!(dev.len(), 1);
    assert_eq!(dev[0].interface, "com.test1");
    let srv = store.server_props();
    assert_eq!(srv.len(), 1);
    assert_eq!(srv[0].interface, "com.test2");
    let d1 = StoreInterfaceData::new("com.test1", Ownership::Device);
    assert_eq!(store.interface_props(&d1).len(), 1);
    store.delete_interface(&d1);
    assert!(store.interface_props(&d1).is_empty());
    assert_eq!(store.load_all_props().len(), 1);
}

#[test]
fn store_is_an_upsert() {
    let mut store = MemoryStore::new();
    let data = StoreInterfaceData::new("com.test", Ownership::Server);
    store.store_prop(&prop("com.test", "/a", AstarteType::Boolean(false), 3, Ownership::Server));
    store.store_prop(&prop("com.test", "/a", AstarteType::Boolean(true), 3, Ownership::Server));
    assert_eq!(store.load_all_props().len(), 1);
    assert_eq!(store.load_prop(&data, "/a", 3), Some(AstarteType::Boolean(true)));
    store.unset_prop(&data, "/a");
    assert!(store.device_props_with_unset().is_empty());
    assert!(store.load_all_props().is_empty());
}
