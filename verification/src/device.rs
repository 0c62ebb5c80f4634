use vstd::prelude::*;

verus! {

/// Logitech vendor ID.
pub const LOGITECH_VID: u16 = 0x046d;

/// HID++ usage page for vendor-specific reports.
pub const HIDPP_USAGE_PAGE: u16 = 0xFF00;

/// Device index for USB-connected devices.
pub const USB_DEVICE_INDEX: u8 = 0xFF;

/// Device index for the first device on a Unifying/Bolt receiver.
pub const RECEIVER_DEVICE_INDEX_1: u8 = 0x01;

/// Information about a discovered Logitech HID++ device.
#[derive(Debug, Clone)]
pub struct LogitechDeviceInfo {
    pub path: String,
    pub product_id: u16,
    pub product_name: String,
    pub device_index: u8,
}

/// What device enumeration reports of one HID interface.
#[derive(Debug, Clone)]
pub struct HidInterface {
    pub path: String,
    pub vendor_id: u16,
    pub product_id: u16,
    pub product_string: Option<String>,
    pub usage_page: u16,
    pub interface_number: i32,
}

/// A HID++ interface of a Logitech device: usage page 0xFF00 or interface 2.
pub open spec fn is_hidpp(vendor_id: u16, usage_page: u16, interface_number: i32) -> bool {
    vendor_id == LOGITECH_VID && (usage_page == HIDPP_USAGE_PAGE || interface_number == 2)
}

/// The device index of a product: receivers (Unifying 0xC52B nano and
/// 0xC532 full-size, Bolt 0xC548) address their first paired device,
/// everything else is USB-direct.
pub open spec fn device_index_for(product_id: u16) -> u8 {
    if product_id == 0xC52B || product_id == 0xC532 || product_id == 0xC548 {
        RECEIVER_DEVICE_INDEX_1
    } else {
        USB_DEVICE_INDEX
    }
}

/// The device record that an enumerated HID++ interface yields.
pub open spec fn device_info_of(dev: HidInterface, info: LogitechDeviceInfo) -> bool {
    &&& info.path == dev.path
    &&& info.product_id == dev.product_id
    &&& info.product_name@ == match dev.product_string {
        Some(name) => name@,
        None => "Unknown"@,
    }
    &&& info.device_index == device_index_for(dev.product_id)
}

/// The HID++ interfaces among `devs`, in order.
pub open spec fn hidpp_interfaces(devs: Seq<HidInterface>) -> Seq<HidInterface> {
    devs.filter(|d: HidInterface| is_hidpp(d.vendor_id, d.usage_page, d.interface_number))
}

pub fn is_hidpp_interface(vendor_id: u16, usage_page: u16, interface_number: i32) -> (b: bool)
    ensures
        b == is_hidpp(vendor_id, usage_page, interface_number),
{
    vendor_id == LOGITECH_VID && (usage_page == HIDPP_USAGE_PAGE || interface_number == 2)
}

/// Classify the device index based on product type.
/// USB-direct devices use 0xFF, receiver-connected use 0x01+.
pub fn classify_device_index(product_id: u16) -> (index: u8)
    ensures
        index == device_index_for(product_id),
{
    if product_id == 0xC52B || product_id == 0xC532 || product_id == 0xC548 {
        RECEIVER_DEVICE_INDEX_1
    } else {
        USB_DEVICE_INDEX
    }
}

/// Selects the Logitech HID++ interfaces of an enumeration and describes them.
pub fn select_logitech_devices(devs: &[HidInterface]) -> (found: Vec<LogitechDeviceInfo>)
    ensures
        found@.len() == hidpp_interfaces(devs@).len(),
        forall|k: int|
            0 <= k < found@.len() ==> device_info_of(hidpp_interfaces(devs@)[k], #[trigger] found@[k]),
{
    let mut found: Vec<LogitechDeviceInfo> = Vec::new();
    let mut i: usize = 0;
    while i < devs.len()
        invariant
            i <= devs@.len(),
            found@.len() == hidpp_interfaces(devs@.take(i as int)).len(),
            forall|k: int|
                0 <= k < found@.len() ==> device_info_of(
                    hidpp_interfaces(devs@.take(i as int))[k],
                    #[trigger] found@[k],
                ),
        decreases devs@.len() - i,
    {
        let dev = &devs[i];
        proof {
            assert(devs@.take(i + 1).drop_last() =~= devs@.take(i as int));
            reveal_with_fuel(Seq::filter, 1);
        }
        if is_hidpp_interface(dev.vendor_id, dev.usage_page, dev.interface_number) {
            let product_name = match &dev.product_string {
                Some(name) => name.clone(),
                None => String::from_str("Unknown"),
            };
            let info = LogitechDeviceInfo {
                path: dev.path.clone(),
                product_id: dev.product_id,
                product_name,
                device_index: classify_device_index(dev.product_id),
            };
            found.push(info);
        }
        i = i + 1;
    }
    assert(devs@.take(devs@.len() as int) =~= devs@);
    found
}

} // verus!
