use statusbar::address::{Address, AddressError, AddressField};
use statusbar::device::{device_kind, DeviceKind, NMActiveConnectionState, NMDeviceState};
use zvariant::{OwnedValue, Value};

#[test]
fn address_from_fields() {
    let a = Address::new("192.168.1.5".to_string(), 24);
    assert_eq!(a.address, "192.168.1.5");
    assert_eq!(a.mask_cird, "24");
}

#[test]
fn address_from_raw_values() {
    let prefix = OwnedValue::from(16u32);
    let addr = OwnedValue::from(Value::from("10.1.2.3"));
    let a = Address::from_raw(Some(&prefix), Some(&addr)).unwrap();
    assert_eq!(a.address, "10.1.2.3");
    assert_eq!(a.mask_cird, "16");
}

#[test]
fn address_from_raw_errors() {
    let prefix = OwnedValue::from(16u32);
    let addr = OwnedValue::from(Value::from("10.1.2.3"));
    assert_eq!(Address::from_raw(None, Some(&addr)).unwrap_err(), AddressError::MissingPrefix);
    assert_eq!(Address::from_raw(Some(&prefix), None).unwrap_err(), AddressError::MissingAddress);
    assert_eq!(Address::from_raw(Some(&addr), Some(&addr)).unwrap_err(), AddressError::WrongType);
    assert_eq!(Address::from_raw(Some(&prefix), Some(&prefix)).unwrap_err(), AddressError::WrongType);
}

#[test]
fn device_state_codes() {
    assert_eq!(NMDeviceState::from_code(100), Some(NMDeviceState::Activated));
    assert_eq!(NMDeviceState::from_code(0), Some(NMDeviceState::Unknown));
    assert_eq!(NMDeviceState::from_code(120), Some(NMDeviceState::Failed));
    assert_eq!(NMDeviceState::from_code(105), None);
    assert_eq!(NMActiveConnectionState::from_code(2), Some(NMActiveConnectionState::ActivatedConnection));
    assert_eq!(NMActiveConnectionState::from_code(5), None);
}

#[test]
fn device_kinds() {
    assert_eq!(device_kind(1), Some(DeviceKind::Wired));
    assert_eq!(device_kind(2), Some(DeviceKind::Wireless));
    assert_eq!(device_kind(0), None);
    assert_eq!(device_kind(5), None);
}

#[test]
fn address_from_plain_fields() {
    let a = Address::from_fields(Some(AddressField::Number(30)), Some(AddressField::Text("10.9.8.7".to_string()))).unwrap();
    assert_eq!(a.address, "10.9.8.7");
    assert_eq!(a.mask_cird, "30");
    assert_eq!(
        Address::from_fields(None, Some(AddressField::Other)).unwrap_err(),
        AddressError::MissingPrefix
    );
    assert_eq!(Address::from_fields(Some(AddressField::Number(1)), None).unwrap_err(), AddressError::MissingAddress);
    assert_eq!(
        Address::from_fields(Some(AddressField::Text("8".to_string())), Some(AddressField::Text("x".to_string())))
            .unwrap_err(),
        AddressError::WrongType
    );
    assert_eq!(
        Address::from_fields(Some(AddressField::Number(8)), Some(AddressField::Other)).unwrap_err(),
        AddressError::WrongType
    );
}
