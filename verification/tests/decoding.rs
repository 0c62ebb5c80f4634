use hidpp::cid_names::cid_name;
use hidpp::error::{HidppError, HidppErrorCode};
use hidpp::features::{
    battery_status_from_params, classify_reply, dpi_list_from_bytes, dpi_pair_from_params,
    feature_index_from_params, feature_index_request, firmware_info_from_params, hires_mode_byte,
    hires_mode_request, hires_ratchet_request, hires_wheel_from_params, long_request_with,
    reprog_control_from_params, set_control_mapping_request, set_dpi_request,
    smart_shift_from_params, smart_shift_request, unified_battery_from_params, BatteryLevel,
    ChargingStatus, FirmwareKind,
};

#[test]
fn error_code_from_byte_maps_every_code() {
    let expected = [
        HidppErrorCode::NoError,
        HidppErrorCode::Unknown,
        HidppErrorCode::InvalidArgument,
        HidppErrorCode::OutOfRange,
        HidppErrorCode::HardwareError,
        HidppErrorCode::LogitechInternal,
        HidppErrorCode::InvalidFeatureIndex,
        HidppErrorCode::InvalidFunctionId,
        HidppErrorCode::Busy,
        HidppErrorCode::Unsupported,
    ];
    for (b, code) in expected.iter().enumerate() {
        assert_eq!(HidppErrorCode::from_byte(b as u8), *code);
        assert_eq!(*code as u8, b as u8);
    }
    assert_eq!(HidppErrorCode::from_byte(0x0A), HidppErrorCode::Unknown);
    assert_eq!(HidppErrorCode::from_byte(0xFF), HidppErrorCode::Unknown);
}

#[test]
fn error_messages() {
    assert_eq!(HidppError::DeviceNotFound.to_string(), "device not found");
    assert_eq!(HidppError::Io("boom".to_string()).to_string(), "HID I/O error: boom");
    assert_eq!(HidppError::Timeout.to_string(), "timeout reading from device");
    assert_eq!(
        HidppError::FeatureNotFound { feature_id: 0x1b04 }.to_string(),
        "feature 0x1B04 not found on device"
    );
    assert_eq!(
        HidppError::ProtocolError { function: 3, error_code: 255 }.to_string(),
        "HID++ error: function 3, error code 255"
    );
    assert_eq!(
        HidppError::UnexpectedResponse { expected: 10, got: 0 }.to_string(),
        "unexpected response: expected function 10, got 0"
    );
    assert_eq!(
        HidppError::InvalidLength { expected: 20, got: 1234 }.to_string(),
        "invalid report length: expected 20, got 1234"
    );
}

#[test]
fn cid_names_known_and_unknown() {
    assert_eq!(cid_name(0x0050), "Left Button");
    assert_eq!(cid_name(0x0056), "Forward Button");
    assert_eq!(cid_name(0x00C4), "Smart Shift");
    assert_eq!(cid_name(0x00FD), "DPI Change");
    assert_eq!(cid_name(0x0055), "Unknown");
    assert_eq!(cid_name(0xFFFF), "Unknown");
}

#[test]
fn feature_index_reply_zero_is_not_found() {
    assert!(matches!(
        feature_index_from_params(&[0, 1, 2], 0x2201),
        Err(HidppError::FeatureNotFound { feature_id: 0x2201 })
    ));
    assert_eq!(feature_index_from_params(&[9], 0x2201).unwrap(), 9);
    assert!(matches!(feature_index_from_params(&[], 7), Err(HidppError::FeatureNotFound { feature_id: 7 })));
}

#[test]
fn unified_battery_levels_and_statuses() {
    let info = unified_battery_from_params(&[50, 0x0C, 1]);
    assert_eq!(info.percentage, Some(50));
    assert_eq!(info.level, BatteryLevel::Full); // highest flag wins
    assert_eq!(info.status, ChargingStatus::Recharging);
    assert_eq!(unified_battery_from_params(&[5, 0x01, 3]).level, BatteryLevel::Critical);
    assert_eq!(unified_battery_from_params(&[5, 0x01, 3]).status, ChargingStatus::Full);
    assert_eq!(unified_battery_from_params(&[0, 0x00, 6]).level, BatteryLevel::Empty);
    assert_eq!(unified_battery_from_params(&[0, 0x00, 6]).status, ChargingStatus::SlowRecharge);
    assert_eq!(unified_battery_from_params(&[0, 0x00, 4]).status, ChargingStatus::Unknown);
    // missing bytes read as zero
    let short = unified_battery_from_params(&[]);
    assert_eq!(short.percentage, Some(0));
    assert_eq!(short.level, BatteryLevel::Empty);
    assert_eq!(short.status, ChargingStatus::Discharging);
}

#[test]
fn battery_status_thresholds() {
    let level = |l: u8| battery_status_from_params(&[l, 0, 0]).level;
    assert_eq!(level(100), BatteryLevel::Full);
    assert_eq!(level(80), BatteryLevel::Full);
    assert_eq!(level(79), BatteryLevel::Good);
    assert_eq!(level(40), BatteryLevel::Good);
    assert_eq!(level(39), BatteryLevel::Low);
    assert_eq!(level(15), BatteryLevel::Low);
    assert_eq!(level(14), BatteryLevel::Critical);
    assert_eq!(level(1), BatteryLevel::Critical);
    assert_eq!(level(0), BatteryLevel::Empty);
    // status uses the low three bits
    assert_eq!(battery_status_from_params(&[50, 0, 0x09]).status, ChargingStatus::Recharging);
    assert_eq!(battery_status_from_params(&[50, 0, 0x0A]).status, ChargingStatus::Full);
    assert_eq!(battery_status_from_params(&[50, 0, 0x03]).status, ChargingStatus::Unknown);
}

#[test]
fn battery_level_never_falls_as_percentage_rises() {
    let rank = |l: BatteryLevel| match l {
        BatteryLevel::Empty => 0,
        BatteryLevel::Critical => 1,
        BatteryLevel::Low => 2,
        BatteryLevel::Good => 3,
        BatteryLevel::Full => 4,
    };
    for a in 0u8..=255 {
        let b = a.saturating_add(1);
        let la = battery_status_from_params(&[a, 0, 0]).level;
        let lb = battery_status_from_params(&[b, 0, 0]).level;
        assert!(rank(la) <= rank(lb));
    }
}

#[test]
fn firmware_info_kinds() {
    let other = firmware_info_from_params(&[0x13, 1, 2, 3]);
    assert_eq!(other.kind, FirmwareKind::Other);
    assert_eq!(other.version, "");
    assert_eq!(other.prefix, "");
    // the level is the low nibble
    let main = firmware_info_from_params(&[0x10, b'R', b'Q', b'R', 0x12, 0x03, 0x01, 0x2C]);
    assert_eq!(main.kind, FirmwareKind::Main);
    assert_eq!(main.prefix, "RQR");
    assert_eq!(main.version, "12.03.B012C");
    assert_eq!(main.build, 0x012C);
    // a short reply: the name stops at the end of the parameters
    let short = firmware_info_from_params(&[0x00, b'A', b'B']);
    assert_eq!(short.prefix, "AB");
    assert_eq!(short.version, "00.00");
    // bytes that are not UTF-8 become replacement characters
    let odd = firmware_info_from_params(&[0x01, 0xFF, b'O', b'K']);
    assert_eq!(odd.prefix, "\u{FFFD}OK");
    let hw = firmware_info_from_params(&[0x02, 200]);
    assert_eq!(hw.version, "200");
    assert_eq!(hw.build, 0);
}

#[test]
fn dpi_list_decoding_cases() {
    assert_eq!(dpi_list_from_bytes(&[]), Vec::<u16>::new());
    assert_eq!(dpi_list_from_bytes(&[0x01]), Vec::<u16>::new());
    // no terminator: stops at the end
    assert_eq!(dpi_list_from_bytes(&[0x01, 0x90, 0x03, 0x20]), vec![400, 800]);
    // range before any value adds nothing
    assert_eq!(dpi_list_from_bytes(&[0xE0, 0x64, 0x01, 0xF4, 0x00, 0x00]), Vec::<u16>::new());
    // range with zero step stops decoding
    assert_eq!(dpi_list_from_bytes(&[0x00, 0x64, 0xE0, 0x00, 0x01, 0xF4]), vec![100]);
    // truncated range stops decoding
    assert_eq!(dpi_list_from_bytes(&[0x00, 0x64, 0xE0, 0x64, 0x01]), vec![100]);
    // range whose end is not a multiple of the step stops below the end
    assert_eq!(
        dpi_list_from_bytes(&[0x00, 0x64, 0xE0, 0x64, 0x01, 0x90, 0x07, 0xD0, 0x00, 0x00]),
        vec![100, 200, 300, 400, 2000]
    );
    // range whose end is below the start adds nothing
    assert_eq!(dpi_list_from_bytes(&[0x03, 0xE8, 0xE0, 0x64, 0x00, 0xC8]), vec![1000]);
    // a range whose last value is exactly reached
    let list = dpi_list_from_bytes(&[0x00, 0xC8, 0xE0, 0xC8, 0x03, 0x20, 0x00, 0x00]);
    assert_eq!(list, vec![200, 400, 600, 800]);
}

#[test]
fn individual_dpi_values_round_trip() {
    let values = [100u16, 1600, 3200, 0x1FFF, 12000];
    let mut raw = Vec::new();
    for v in values {
        raw.push((v >> 8) as u8);
        raw.push((v & 0xFF) as u8);
    }
    raw.push(0);
    raw.push(0);
    raw.extend_from_slice(&[0x12, 0x34]); // after the terminator: ignored
    assert_eq!(dpi_list_from_bytes(&raw), values.to_vec());
}

#[test]
fn dpi_pair_zero_current_reads_default() {
    assert_eq!(dpi_pair_from_params(&[0, 0x06, 0x40, 0x03, 0x20]), (1600, 800));
    assert_eq!(dpi_pair_from_params(&[0, 0, 0, 0x03, 0x20]), (800, 800));
    assert_eq!(dpi_pair_from_params(&[0]), (0, 0));
}

#[test]
fn set_dpi_bytes_read_back_as_current() {
    for dpi in [1u16, 400, 1600, 0x1234, 0xFFFF] {
        let req = set_dpi_request(0x01, 0x08, dpi);
        assert_eq!(dpi_pair_from_params(&req.params()[..3]).0, dpi);
    }
}

#[test]
fn request_builders_lay_out_parameters() {
    let r = feature_index_request(0x02, 0x1B04);
    assert_eq!(r.as_bytes(), &[0x11, 0x02, 0x00, 0x01, 0x1B, 0x04, 0, 0, 0, 0, 0, 0, 0, 0, 0, 0, 0, 0, 0, 0]);
    let r = smart_shift_request(0x01, 0x09, false, 1, 30);
    assert_eq!(&r.as_bytes()[..6], &[0x11, 0x01, 0x09, 0x11, 1, 30]);
    let r = hires_mode_request(0x01, 0x0A, true, true);
    assert_eq!(r.params()[0], 0x06);
    let r = hires_ratchet_request(0x01, 0x0A, true);
    assert_eq!(&r.as_bytes()[2..5], &[0x0A, 0x41, 0x01]);
    let r = set_control_mapping_request(0x01, 0x0B, 0xABCD, 0x0102);
    assert_eq!(&r.params()[..5], &[0xAB, 0xCD, 0x00, 0x01, 0x02]);
    let r = long_request_with(0x03, 0x04, 0x05, &[9, 8, 7]);
    assert_eq!(&r.as_bytes()[..7], &[0x11, 0x03, 0x04, 0x51, 9, 8, 7]);
    assert!(r.as_bytes()[7..].iter().all(|&b| b == 0));
}

#[test]
fn smart_shift_and_wheel_decoding() {
    let info = smart_shift_from_params(&[2, 15, 99], true);
    assert_eq!((info.mode, info.threshold, info.is_enhanced), (2, 15, true));
    let info = smart_shift_from_params(&[], false);
    assert_eq!((info.mode, info.threshold, info.is_enhanced), (0, 0, false));

    for hi_res in [false, true] {
        for invert in [false, true] {
            let mode = [hires_mode_byte(hi_res, invert)];
            let info = hires_wheel_from_params(&[4, 0x04], &mode, &[0x00]);
            assert_eq!(info.hi_res, hi_res);
            assert_eq!(info.invert, invert);
            assert!(info.has_ratchet);
            assert!(!info.has_invert);
            assert!(!info.ratchet);
        }
    }
}

#[test]
fn reprog_control_decoding() {
    let c = reprog_control_from_params(
        &[0x00, 0x53, 0x00, 0x3A, 0x71, 0x02, 0x03, 0x04, 0x05],
        &[0x00, 0x53, 0x00, 0x00, 0x56],
    );
    assert_eq!(c.cid, 0x0053);
    assert_eq!(c.task_id, 0x003A);
    assert_eq!(c.flags, 0x0571);
    assert_eq!(c.position, 2);
    assert_eq!(c.group, 3);
    assert_eq!(c.group_mask, 4);
    assert_eq!(c.mapped_to, 0x0056);
    assert_eq!(c.name, "Back Button");
    assert!(c.is_remappable);
    // remap bytes read back as a mapping reply
    let req = set_control_mapping_request(0x01, 0x0B, 0x00C3, 0x00D7);
    let back = reprog_control_from_params(&req.params()[..2], &req.params()[..5]);
    assert_eq!(back.cid, 0x00C3);
    assert_eq!(back.mapped_to, 0x00D7);
}

#[test]
fn classify_reply_cases() {
    let answer = [0x11u8, 0x01, 0x05, 0x21, 7, 0, 0, 0, 0, 0, 0, 0, 0, 0, 0, 0, 0, 0, 0, 0];
    let r = classify_reply(&answer, 0x01, 0x05, 0x02).unwrap().unwrap();
    assert_eq!(r.params()[0], 7);
    // other device, other feature, other function: skipped
    assert!(classify_reply(&answer, 0x02, 0x05, 0x02).unwrap().is_none());
    assert!(classify_reply(&answer, 0x01, 0x06, 0x02).unwrap().is_none());
    assert!(classify_reply(&answer, 0x01, 0x05, 0x03).unwrap().is_none());
    // a short report answers too
    let short = [0x10u8, 0x01, 0x05, 0x21, 1, 2, 3];
    assert_eq!(classify_reply(&short, 0x01, 0x05, 0x02).unwrap().unwrap().len, 7);
    // an error message about the requested feature
    let err = [0x10u8, 0x01, 0xFF, 0x21, 0x05, 0x09, 0x00];
    assert!(matches!(
        classify_reply(&err, 0x01, 0x05, 0x02),
        Err(HidppError::ProtocolError { function: 2, error_code: 9 })
    ));
    // an error message about another feature, or for another device, is skipped
    assert!(classify_reply(&err, 0x01, 0x06, 0x02).unwrap().is_none());
    assert!(classify_reply(&err, 0x02, 0x05, 0x02).unwrap().is_none());
    // unparseable bytes
    assert!(matches!(classify_reply(&[0x20, 1, 2], 1, 5, 2), Err(HidppError::InvalidLength { expected: 7, got: 3 })));
}
