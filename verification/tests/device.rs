use hidpp::commands::{battery_dto, device_dto};
use hidpp::device::{
    classify_device_index, is_hidpp_interface, select_logitech_devices, HidInterface, LogitechDeviceInfo,
    LOGITECH_VID, RECEIVER_DEVICE_INDEX_1, USB_DEVICE_INDEX,
};
use hidpp::error::HidppError;
use hidpp::features::{BatteryInfo, BatteryLevel, ChargingStatus};

fn iface(path: &str, vendor_id: u16, product_id: u16, name: Option<&str>, usage_page: u16, interface_number: i32) -> HidInterface {
    HidInterface {
        path: path.to_string(),
        vendor_id,
        product_id,
        product_string: name.map(|n| n.to_string()),
        usage_page,
        interface_number,
    }
}

#[test]
fn receivers_use_the_first_paired_device_index() {
    assert_eq!(classify_device_index(0xC52B), RECEIVER_DEVICE_INDEX_1);
    assert_eq!(classify_device_index(0xC532), RECEIVER_DEVICE_INDEX_1);
    assert_eq!(classify_device_index(0xC548), RECEIVER_DEVICE_INDEX_1);
    assert_eq!(classify_device_index(0xB034), USB_DEVICE_INDEX);
    assert_eq!(classify_device_index(0xC52C), USB_DEVICE_INDEX);
}

#[test]
fn hidpp_interfaces_are_recognized() {
    assert!(is_hidpp_interface(LOGITECH_VID, 0xFF00, 0));
    assert!(is_hidpp_interface(LOGITECH_VID, 0x0001, 2));
    assert!(!is_hidpp_interface(LOGITECH_VID, 0x0001, 1));
    assert!(!is_hidpp_interface(0x1234, 0xFF00, 2));
}

#[test]
fn selection_keeps_logitech_hidpp_interfaces_in_order() {
    let devs = vec![
        iface("/dev/hidraw0", 0x1234, 0x0001, Some("Other"), 0xFF00, 2),
        iface("/dev/hidraw1", LOGITECH_VID, 0xC548, Some("Bolt Receiver"), 0xFF00, 2),
        iface("/dev/hidraw2", LOGITECH_VID, 0xB034, None, 0x0001, 2),
        iface("/dev/hidraw3", LOGITECH_VID, 0xB034, Some("MX Master 3S"), 0x0001, 0),
    ];
    let found = select_logitech_devices(&devs);
    assert_eq!(found.len(), 2);
    assert_eq!(found[0].path, "/dev/hidraw1");
    assert_eq!(found[0].product_id, 0xC548);
    assert_eq!(found[0].product_name, "Bolt Receiver");
    assert_eq!(found[0].device_index, RECEIVER_DEVICE_INDEX_1);
    assert_eq!(found[1].path, "/dev/hidraw2");
    assert_eq!(found[1].product_name, "Unknown");
    assert_eq!(found[1].device_index, USB_DEVICE_INDEX);
    assert!(select_logitech_devices(&[]).is_empty());
}

#[test]
fn device_dto_formats_product_id() {
    let info = LogitechDeviceInfo {
        path: "/dev/hidraw0".to_string(),
        product_id: 0xC548,
        product_name: "Bolt Receiver".to_string(),
        device_index: 1,
    };
    let dto = device_dto(&info);
    assert_eq!(dto.path, "/dev/hidraw0");
    assert_eq!(dto.product_id, "0xC548");
    assert_eq!(dto.product_name, "Bolt Receiver");
    assert_eq!(dto.device_index, 1);
    let info = LogitechDeviceInfo { product_id: 0x00a5, ..info };
    assert_eq!(device_dto(&info).product_id, "0x00A5");
}

#[test]
fn battery_dto_with_info_or_error() {
    let dto = battery_dto(
        "/dev/hidraw0".to_string(),
        Ok(Some(BatteryInfo { percentage: Some(75), level: BatteryLevel::Good, status: ChargingStatus::Discharging })),
    );
    assert_eq!(dto.path, "/dev/hidraw0");
    assert_eq!(dto.battery.as_ref().unwrap().percentage, Some(75));
    assert!(dto.error.is_none());

    let dto = battery_dto("/dev/hidraw0".to_string(), Ok(None));
    assert!(dto.battery.is_none());
    assert!(dto.error.is_none());

    let dto = battery_dto("/dev/hidraw0".to_string(), Err(HidppError::Timeout));
    assert!(dto.battery.is_none());
    assert_eq!(dto.error.as_deref(), Some("timeout reading from device"));
}
