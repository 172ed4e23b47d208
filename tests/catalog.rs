use usbread::{
    configuration_catalog, device_catalog, endpoint_catalog, menu_choice, selection_index,
    sort_devices, AltSetting, ConfigRecord, DeviceDescriptor, DeviceEntry, Endpoint,
    EndpointDescriptor, EndpointKind, Error, TransferType,
};

fn entry(vendor: u16, product: u16, bus: u8, address: u8, name: &str) -> DeviceEntry {
    let descriptor = DeviceDescriptor {
        vendor_id: vendor,
        product_id: product,
        class_code: 0,
        sub_class_code: 0,
        protocol_code: 0,
        num_configurations: 1,
    };
    DeviceEntry::from_device(Some(descriptor), bus, address, None, Some(name.to_string()), None)
        .unwrap()
}

fn names(entries: &[DeviceEntry]) -> Vec<String> {
    entries.iter().map(|e| e.product_str().to_string()).collect()
}

#[test]
fn devices_sorted_by_vendor_product_bus_address() {
    let sorted = sort_devices(vec![
        entry(0x2000, 1, 1, 5, "c"),
        entry(0x1000, 2, 1, 1, "b"),
        entry(0x1000, 1, 2, 1, "a2"),
        entry(0x1000, 1, 1, 9, "a1"),
        entry(0x2000, 1, 1, 4, "c0"),
    ]);
    assert_eq!(names(&sorted), vec!["a1", "a2", "b", "c0", "c"]);
    let keys: Vec<_> = sorted.iter().map(|e| e.sort_key()).collect();
    assert_eq!(keys[0], (0x1000, 1, 1, 9));
}

#[test]
fn equal_keys_keep_enumeration_order() {
    let sorted = sort_devices(vec![
        entry(5, 5, 1, 1, "second"),
        entry(1, 1, 1, 1, "first"),
        entry(5, 5, 1, 1, "third"),
        entry(5, 5, 1, 1, "fourth"),
    ]);
    assert_eq!(names(&sorted), vec!["first", "second", "third", "fourth"]);
}

#[test]
fn undescribed_device_is_skipped() {
    assert!(DeviceEntry::from_device(None, 1, 2, None, None, None).is_none());
}

#[test]
fn device_strings_default_to_unknown() {
    let e = entry(0x1234, 0x5678, 3, 7, "Widget");
    assert_eq!(e.manufacturer_str(), "Unknown");
    assert_eq!(e.product_str(), "Widget");
    assert_eq!(e.serial(), None);
    assert_eq!(e.vendor_id(), 0x1234);
    assert_eq!(e.product_id(), 0x5678);
    assert_eq!(e.bus_number(), 3);
    assert_eq!(e.address(), 7);
    let d = DeviceDescriptor {
        vendor_id: 1,
        product_id: 2,
        class_code: 0xff,
        sub_class_code: 0x42,
        protocol_code: 7,
        num_configurations: 2,
    };
    let e = DeviceEntry::from_device(
        Some(d),
        1,
        1,
        Some("Acme".to_string()),
        None,
        Some("SN1".to_string()),
    )
    .unwrap();
    assert_eq!(e.manufacturer_str(), "Acme");
    assert_eq!(e.product_str(), "Unknown");
    assert_eq!(e.serial(), Some("SN1"));
    assert_eq!(e.num_configurations(), 2);
    assert_eq!((e.class_code(), e.sub_class_code(), e.protocol_code()), (0xff, 0x42, 7));
}

#[test]
fn empty_device_enumeration_is_no_devices() {
    assert_eq!(device_catalog(Vec::new()).unwrap_err(), Error::NoDevices);
    let one = device_catalog(vec![entry(1, 1, 1, 1, "x")]).unwrap();
    assert_eq!(one.len(), 1);
    let shown = device_catalog(vec![
        entry(3, 1, 1, 1, "z"),
        entry(2, 9, 1, 1, "y"),
        entry(2, 9, 1, 1, "y2"),
    ])
    .unwrap();
    assert_eq!(names(&shown), vec!["y", "y2", "z"]);
}

fn ep(address: u8, attributes: u8) -> EndpointDescriptor {
    EndpointDescriptor { address, attributes }
}

fn config(value: u8, alts: Vec<AltSetting>) -> ConfigRecord {
    ConfigRecord {
        configuration_value: value,
        num_interfaces: 1,
        max_power: 50,
        is_active: false,
        alt_settings: alts,
    }
}

#[test]
fn only_in_bulk_and_interrupt_endpoints_are_kept() {
    let c = config(
        1,
        vec![
            AltSetting {
                interface_number: 0,
                alternate_setting: 0,
                endpoints: vec![ep(0x81, 0x03), ep(0x01, 0x02), ep(0x82, 0x00), ep(0x83, 0x01)],
            },
            AltSetting {
                interface_number: 0,
                alternate_setting: 1,
                endpoints: vec![ep(0x84, 0x06)],
            },
            AltSetting {
                interface_number: 1,
                alternate_setting: 0,
                endpoints: vec![ep(0x02, 0x03), ep(0x85, 0x02)],
            },
        ],
    );
    let eps = Endpoint::collect_in_endpoints(&c);
    assert_eq!(
        eps,
        vec![
            Endpoint { interface: 0, setting: 0, address: 0x81, transfer_type: TransferType::Interrupt },
            Endpoint { interface: 0, setting: 1, address: 0x84, transfer_type: TransferType::Bulk },
            Endpoint { interface: 1, setting: 0, address: 0x85, transfer_type: TransferType::Bulk },
        ]
    );
    assert_eq!(eps[0].transfer_type_str(), "Interrupt");
    assert_eq!(eps[1].transfer_type_str(), "Bulk");
    assert_eq!((eps[1].interface(), eps[1].setting(), eps[1].address()), (0, 1, 0x84));
    assert_eq!(eps[2].transfer_type(), TransferType::Bulk);
    assert_eq!(endpoint_catalog(&c).unwrap(), eps);
}

#[test]
fn endpoint_descriptor_fields() {
    assert!(ep(0x81, 0).is_in());
    assert!(!ep(0x7f, 0).is_in());
    assert_eq!(ep(1, 0x00).kind(), EndpointKind::Control);
    assert_eq!(ep(1, 0x0d).kind(), EndpointKind::Isochronous);
    assert_eq!(ep(1, 0x02).kind(), EndpointKind::Bulk);
    assert_eq!(ep(1, 0x03).kind(), EndpointKind::Interrupt);
}

#[test]
fn configuration_without_in_endpoints_is_no_endpoints() {
    let c = config(
        1,
        vec![AltSetting {
            interface_number: 0,
            alternate_setting: 0,
            endpoints: vec![ep(0x01, 0x02), ep(0x81, 0x01)],
        }],
    );
    assert_eq!(endpoint_catalog(&c).unwrap_err(), Error::NoEndpoints);
    assert_eq!(endpoint_catalog(&config(1, Vec::new())).unwrap_err(), Error::NoEndpoints);
}

#[test]
fn empty_configuration_list_is_no_configurations() {
    assert_eq!(configuration_catalog(Vec::new(), Some(1)).unwrap_err(), Error::NoConfigurations);
}

#[test]
fn active_configuration_is_marked() {
    let configs = configuration_catalog(vec![config(1, Vec::new()), config(2, Vec::new())], Some(2))
        .unwrap();
    assert_eq!(configs.len(), 2);
    assert!(!configs[0].is_active);
    assert!(configs[1].is_active);
    assert_eq!(configs[1].configuration_value, 2);
    let none = configuration_catalog(vec![config(1, Vec::new())], None).unwrap();
    assert!(!none[0].is_active);
    assert_eq!(none[0].max_power_ma(), 100);
}

#[test]
fn menu_answers() {
    assert_eq!(menu_choice(1, 3), Some(0));
    assert_eq!(menu_choice(3, 3), Some(2));
    assert_eq!(menu_choice(0, 3), None);
    assert_eq!(menu_choice(4, 3), None);
    assert_eq!(selection_index(Some(2), 3), Ok(2));
    assert_eq!(selection_index(Some(3), 3), Err(Error::UserCancelled));
    assert_eq!(selection_index(None, 3), Err(Error::UserCancelled));
}
