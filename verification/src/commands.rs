use vstd::prelude::*;

use crate::device::LogitechDeviceInfo;
use crate::error::{error_message, HidppError};
use crate::features::BatteryInfo;
use crate::text::{hex_digits, push_hex};

verus! {

/// A discovered device as the user interface lists it.
#[derive(Debug, Clone)]
pub struct DeviceDto {
    pub path: String,
    pub product_id: String,
    pub product_name: String,
    pub device_index: u8,
}

/// The battery state of a device, or why it could not be read.
#[derive(Debug, Clone)]
pub struct DeviceBatteryDto {
    pub path: String,
    pub battery: Option<BatteryInfo>,
    pub error: Option<String>,
}

/// A product ID as "0x" and four upper-case hex digits.
pub open spec fn product_id_text(product_id: u16) -> Seq<char> {
    "0x"@ + hex_digits(product_id as nat, 4, true)
}

pub fn device_dto(info: &LogitechDeviceInfo) -> (dto: DeviceDto)
    ensures
        dto.path == info.path,
        dto.product_id@ == product_id_text(info.product_id),
        dto.product_name == info.product_name,
        dto.device_index == info.device_index,
{
    let mut product_id = String::from_str("0x");
    push_hex(&mut product_id, info.product_id as u64, 4, true);
    DeviceDto {
        path: info.path.clone(),
        product_id,
        product_name: info.product_name.clone(),
        device_index: info.device_index,
    }
}

/// The battery report for a device: the battery read, or the message of the
/// error that stopped it.
pub fn battery_dto(path: String, result: Result<Option<BatteryInfo>, HidppError>) -> (dto:
    DeviceBatteryDto)
    ensures
        dto.path == path,
        match result {
            Ok(battery) => dto.battery == battery && dto.error is None,
            Err(e) => dto.battery is None && (dto.error matches Some(m) && m@ == error_message(e)),
        },
{
    match result {
        Ok(battery) => DeviceBatteryDto { path, battery, error: None },
        Err(e) => DeviceBatteryDto { path, battery: None, error: Some(e.to_string()) },
    }
}

} // verus!
