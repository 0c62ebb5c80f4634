use std::cell::RefCell;

use hidpp::error::HidppError;
use hidpp::features::{
    BatteryLevel, ChargingStatus, FeatureAccess, FirmwareKind, HidTransport, FEATURE_CHANGE_HOST,
    SW_ID,
};

/// Mock HID transport that records writes and replays pre-configured responses.
struct MockTransport {
    responses: RefCell<Vec<Vec<u8>>>,
    writes: RefCell<Vec<Vec<u8>>>,
}

impl MockTransport {
    fn new(responses: Vec<Vec<u8>>) -> Self {
        Self {
            responses: RefCell::new(responses),
            writes: RefCell::new(Vec::new()),
        }
    }

    fn written(&self) -> Vec<Vec<u8>> {
        self.writes.borrow().clone()
    }
}

impl HidTransport for MockTransport {
    fn write(&self, data: &[u8]) -> Result<usize, HidppError> {
        self.writes.borrow_mut().push(data.to_vec());
        Ok(data.len())
    }

    fn read_timeout(&self, buf: &mut [u8], _timeout_ms: i32) -> Result<usize, HidppError> {
        let mut responses = self.responses.borrow_mut();
        if responses.is_empty() {
            return Err(HidppError::Timeout);
        }
        let response = responses.remove(0);
        let len = response.len().min(buf.len());
        buf[..len].copy_from_slice(&response[..len]);
        Ok(len)
    }
}

fn make_get_feature_response(device_index: u8, feature_index: u8) -> Vec<u8> {
    let mut data = vec![0u8; 20];
    data[0] = 0x11; // long report
    data[1] = device_index;
    data[2] = 0x00; // IRoot feature index
    data[3] = 0x01; // function_id=0, sw_id=1
    data[4] = feature_index;
    data
}

fn make_change_host_response(device_index: u8, feature_index: u8) -> Vec<u8> {
    let mut data = vec![0u8; 20];
    data[0] = 0x11;
    data[1] = device_index;
    data[2] = feature_index;
    data[3] = 0x01; // function_id=0, sw_id=1
    data
}

fn make_battery_response(
    device_index: u8,
    feature_index: u8,
    function_id: u8,
    params: &[u8],
) -> Vec<u8> {
    let mut data = vec![0u8; 20];
    data[0] = 0x11;
    data[1] = device_index;
    data[2] = feature_index;
    data[3] = (function_id << 4) | SW_ID;
    for (i, &v) in params.iter().enumerate() {
        data[4 + i] = v;
    }
    data
}

fn make_feature_response(
    device_index: u8,
    feature_index: u8,
    function_id: u8,
    params: &[u8],
) -> Vec<u8> {
    let mut data = vec![0u8; 20];
    data[0] = 0x11;
    data[1] = device_index;
    data[2] = feature_index;
    data[3] = (function_id << 4) | SW_ID;
    for (i, &v) in params.iter().enumerate() {
        data[4 + i] = v;
    }
    data
}

#[test]
fn get_feature_index_success() {
    let response = make_get_feature_response(0x01, 0x07);
    let transport = MockTransport::new(vec![response]);
    let mut access = FeatureAccess::new(transport, 0x01);

    let index = access.get_feature_index(FEATURE_CHANGE_HOST).unwrap();
    assert_eq!(index, 0x07);
}

#[test]
fn get_feature_index_not_found() {
    // index=0 means feature not found
    let response = make_get_feature_response(0x01, 0x00);
    let transport = MockTransport::new(vec![response]);
    let mut access = FeatureAccess::new(transport, 0x01);

    let result = access.get_feature_index(0x9999);
    assert!(matches!(
        result,
        Err(HidppError::FeatureNotFound { feature_id: 0x9999 })
    ));
}

#[test]
fn crypto_identifier_reads_both_chunks() {
    let feature_index = 0x0c;
    let get_feature = make_get_feature_response(0x01, feature_index);
    let first: Vec<u8> = (0u8..16).collect();
    let second: Vec<u8> = (16u8..32).collect();
    let first_response = make_feature_response(0x01, feature_index, 0, &first);
    let second_response = make_feature_response(0x01, feature_index, 1, &second);
    let transport = MockTransport::new(vec![get_feature, first_response, second_response]);
    let mut access = FeatureAccess::new(transport, 0x01);

    let identifier = access.get_crypto_identifier().unwrap();

    assert_eq!(identifier, std::array::from_fn(|index| index as u8));
    let writes = access.transport().written();
    assert_eq!(writes.len(), 3);
    assert_eq!(&writes[0][4..6], &[0x00, 0x21]);
    assert_eq!(writes[1][3], 0x01);
    assert_eq!(writes[2][3], 0x11);
}

#[test]
fn change_host_sends_correct_reports() {
    let get_feature_resp = make_get_feature_response(0x01, 0x07);
    let change_host_resp = make_change_host_response(0x01, 0x07);
    let transport = MockTransport::new(vec![get_feature_resp, change_host_resp]);
    let mut access = FeatureAccess::new(transport, 0x01);

    access.change_host(1).unwrap();

    let writes = access.transport().written();
    assert_eq!(writes.len(), 2);

    // First write: GetFeatureIndex(0x1814)
    assert_eq!(writes[0][0], 0x11); // long report
    assert_eq!(writes[0][1], 0x01); // device index
    assert_eq!(writes[0][2], 0x00); // IRoot feature index
    assert_eq!(writes[0][4], 0x18); // feature_id high byte
    assert_eq!(writes[0][5], 0x14); // feature_id low byte

    // Second write: ChangeHost(host_index=1)
    assert_eq!(writes[1][0], 0x11); // long report
    assert_eq!(writes[1][1], 0x01); // device index
    assert_eq!(writes[1][2], 0x07); // ChangeHost feature index
    assert_eq!(writes[1][4], 0x01); // host_index
}

#[test]
fn get_host_count() {
    let get_feature_resp = make_get_feature_response(0x01, 0x07);
    let mut host_count_resp = vec![0u8; 20];
    host_count_resp[0] = 0x11;
    host_count_resp[1] = 0x01;
    host_count_resp[2] = 0x07; // ChangeHost feature index
    host_count_resp[3] = 0x11; // function_id=1, sw_id=1
    host_count_resp[4] = 3; // 3 hosts

    let transport = MockTransport::new(vec![get_feature_resp, host_count_resp]);
    let mut access = FeatureAccess::new(transport, 0x01);

    let count = access.get_host_count().unwrap();
    assert_eq!(count, 3);
}

#[test]
fn error_response_detected() {
    let mut error_resp = vec![0u8; 20];
    error_resp[0] = 0x11;
    error_resp[1] = 0x01;
    error_resp[2] = 0xFF; // ERROR_MSG
    error_resp[3] = 0x01;
    error_resp[4] = 0x00; // feature that caused error = IRoot
    error_resp[5] = 0x02; // error code = InvalidArgument

    let transport = MockTransport::new(vec![error_resp]);
    let mut access = FeatureAccess::new(transport, 0x01);

    let result = access.get_feature_index(0x1814);
    assert!(matches!(
        result,
        Err(HidppError::ProtocolError {
            function: 0,
            error_code: 2
        })
    ));
}

#[test]
fn unified_battery_full_charged() {
    let get_feat = make_get_feature_response(0x01, 0x05); // feature index 5
    let bat_resp = make_battery_response(0x01, 0x05, 0x01, &[100, 0x08, 2]); // 100%, Full, Full
    let transport = MockTransport::new(vec![get_feat, bat_resp]);
    let mut access = FeatureAccess::new(transport, 0x01);

    let info = access.get_unified_battery().unwrap();
    assert_eq!(info.percentage, Some(100));
    assert_eq!(info.level, BatteryLevel::Full);
    assert_eq!(info.status, ChargingStatus::Full);
}

#[test]
fn unified_battery_low_discharging() {
    let get_feat = make_get_feature_response(0x01, 0x05);
    let bat_resp = make_battery_response(0x01, 0x05, 0x01, &[15, 0x02, 0]); // 15%, Low, Discharging
    let transport = MockTransport::new(vec![get_feat, bat_resp]);
    let mut access = FeatureAccess::new(transport, 0x01);

    let info = access.get_unified_battery().unwrap();
    assert_eq!(info.percentage, Some(15));
    assert_eq!(info.level, BatteryLevel::Low);
    assert_eq!(info.status, ChargingStatus::Discharging);
}

#[test]
fn battery_fallback_to_status() {
    // UnifiedBattery not found (index=0), then BatteryStatus found
    let ub_not_found = make_get_feature_response(0x01, 0x00); // index 0 = not found
    let bs_found = make_get_feature_response(0x01, 0x06); // BatteryStatus at index 6
    let bs_resp = make_battery_response(0x01, 0x06, 0x00, &[85, 80, 0]); // 85%, discharging
    let transport = MockTransport::new(vec![ub_not_found, bs_found, bs_resp]);
    let mut access = FeatureAccess::new(transport, 0x01);

    let info = access.get_battery().unwrap().unwrap();
    assert_eq!(info.percentage, Some(85));
    assert_eq!(info.level, BatteryLevel::Full);
    assert_eq!(info.status, ChargingStatus::Discharging);
}

#[test]
fn battery_no_feature() {
    // Neither UnifiedBattery nor BatteryStatus found
    let ub_not_found = make_get_feature_response(0x01, 0x00);
    let bs_not_found = make_get_feature_response(0x01, 0x00);
    let transport = MockTransport::new(vec![ub_not_found, bs_not_found]);
    let mut access = FeatureAccess::new(transport, 0x01);

    let result = access.get_battery().unwrap();
    assert!(result.is_none());
}

#[test]
fn skips_non_matching_reports() {
    // First response is a notification (different feature index)
    let mut notification = vec![0u8; 20];
    notification[0] = 0x11;
    notification[1] = 0x01;
    notification[2] = 0x08; // some other feature
    notification[3] = 0x01;

    // Second response is the actual GetFeatureIndex reply
    let real_response = make_get_feature_response(0x01, 0x07);

    let transport = MockTransport::new(vec![notification, real_response]);
    let mut access = FeatureAccess::new(transport, 0x01);

    let index = access.get_feature_index(FEATURE_CHANGE_HOST).unwrap();
    assert_eq!(index, 0x07);
}

#[test]
fn firmware_version_main_and_bootloader() {
    let feat_idx = 0x04;
    let get_feat = make_get_feature_response(0x01, feat_idx);
    // getEntityCount response: count=2, rest is unit/model ID (ignored here)
    let count_resp = make_feature_response(0x01, feat_idx, 0x00, &[2]);

    // getFwInfo(0): Main firmware - level=0, name="MPM", major=0x0A, minor=0x02, build=0x0005
    let fw0_resp = make_feature_response(
        0x01,
        feat_idx,
        0x01,
        &[
            0x00, // level=0 (Main)
            b'M', b'P', b'M', // 3-char name
            0x0A, 0x02, // major, minor
            0x00, 0x05, // build BE = 5
        ],
    );
    // getFwInfo(1): Bootloader - level=1, name="BOT", major=0x01, minor=0x00, build=0
    let fw1_resp = make_feature_response(
        0x01,
        feat_idx,
        0x01,
        &[
            0x01, // level=1 (Bootloader)
            b'B', b'O', b'T', 0x01, 0x00, 0x00, 0x00, // no build
        ],
    );

    let transport = MockTransport::new(vec![get_feat, count_resp, fw0_resp, fw1_resp]);
    let mut access = FeatureAccess::new(transport, 0x01);

    let fw = access.get_firmware_version().unwrap();
    assert_eq!(fw.len(), 2);

    assert_eq!(fw[0].kind, FirmwareKind::Main);
    assert_eq!(fw[0].prefix, "MPM");
    assert_eq!(fw[0].version, "0A.02.B0005");
    assert_eq!(fw[0].build, 5);

    assert_eq!(fw[1].kind, FirmwareKind::Bootloader);
    assert_eq!(fw[1].prefix, "BOT");
    assert_eq!(fw[1].version, "01.00");
    assert_eq!(fw[1].build, 0);
}

#[test]
fn firmware_version_hardware_entity() {
    let feat_idx = 0x04;
    let get_feat = make_get_feature_response(0x01, feat_idx);
    let count_resp = make_feature_response(0x01, feat_idx, 0x00, &[1]);
    // Hardware entity: level=2, revision=5
    let fw_resp = make_feature_response(0x01, feat_idx, 0x01, &[0x02, 0x05]);

    let transport = MockTransport::new(vec![get_feat, count_resp, fw_resp]);
    let mut access = FeatureAccess::new(transport, 0x01);

    let fw = access.get_firmware_version().unwrap();
    assert_eq!(fw.len(), 1);
    assert_eq!(fw[0].kind, FirmwareKind::Hardware);
    assert_eq!(fw[0].version, "5");
}

#[test]
fn firmware_version_not_supported() {
    let not_found = make_get_feature_response(0x01, 0x00);
    let transport = MockTransport::new(vec![not_found]);
    let mut access = FeatureAccess::new(transport, 0x01);

    let result = access.get_firmware_version();
    assert!(matches!(
        result,
        Err(HidppError::FeatureNotFound { feature_id: 0x0003 })
    ));
}

// ── DPI tests ──

#[test]
fn dpi_list_individual_values() {
    let feat_idx = 0x08;
    let get_feat = make_get_feature_response(0x01, feat_idx);
    // getSensorDpiList response: [sensor_echo, DPI values..., 0x0000 terminator]
    // DPI values: 400 (0x0190), 800 (0x0320), 1600 (0x0640)
    let list_resp = make_feature_response(
        0x01,
        feat_idx,
        0x01,
        &[
            0x00, // sensor echo
            0x01, 0x90, // 400
            0x03, 0x20, // 800
            0x06, 0x40, // 1600
            0x00, 0x00, // terminator
        ],
    );
    let transport = MockTransport::new(vec![get_feat, list_resp]);
    let mut access = FeatureAccess::new(transport, 0x01);

    let list = access.get_dpi_list().unwrap();
    assert_eq!(list, vec![400, 800, 1600]);
}

#[test]
fn dpi_list_with_range() {
    let feat_idx = 0x08;
    let get_feat = make_get_feature_response(0x01, feat_idx);
    // DPI values: 200 (individual), then range step=200 up to 4000
    // Range marker: top 3 bits = 111, step = 200 (0xC8)
    // 0b111_00000_11001000 = 0xE0C8
    let list_resp = make_feature_response(
        0x01,
        feat_idx,
        0x01,
        &[
            0x00, // sensor echo
            0x00, 0xC8, // 200 (individual)
            0xE0, 0xC8, // range: step=200
            0x03, 0xE8, // end=1000
            0x00, 0x00, // terminator
        ],
    );
    let transport = MockTransport::new(vec![get_feat, list_resp]);
    let mut access = FeatureAccess::new(transport, 0x01);

    let list = access.get_dpi_list().unwrap();
    // 200 (individual), then range from 200+200=400 to 1000 step 200: 400, 600, 800, 1000
    assert_eq!(list, vec![200, 400, 600, 800, 1000]);
}

#[test]
fn get_dpi_current_and_default() {
    let feat_idx = 0x08;
    let get_feat = make_get_feature_response(0x01, feat_idx);
    // getSensorDpi response: [sensor, current_hi, current_lo, default_hi, default_lo]
    let dpi_resp = make_feature_response(
        0x01,
        feat_idx,
        0x02,
        &[
            0x00, // sensor
            0x06, 0x40, // current = 1600
            0x03, 0x20, // default = 800
        ],
    );
    let transport = MockTransport::new(vec![get_feat, dpi_resp]);
    let mut access = FeatureAccess::new(transport, 0x01);

    let (current, default) = access.get_dpi().unwrap();
    assert_eq!(current, 1600);
    assert_eq!(default, 800);
}

#[test]
fn get_dpi_zero_uses_default() {
    let feat_idx = 0x08;
    let get_feat = make_get_feature_response(0x01, feat_idx);
    let dpi_resp = make_feature_response(
        0x01,
        feat_idx,
        0x02,
        &[
            0x00, // sensor
            0x00, 0x00, // current = 0 (use default)
            0x03, 0x20, // default = 800
        ],
    );
    let transport = MockTransport::new(vec![get_feat, dpi_resp]);
    let mut access = FeatureAccess::new(transport, 0x01);

    let (current, _default) = access.get_dpi().unwrap();
    assert_eq!(current, 800); // falls back to default
}

#[test]
fn set_dpi_sends_correct_bytes() {
    let feat_idx = 0x08;
    let get_feat = make_get_feature_response(0x01, feat_idx);
    let set_resp = make_feature_response(0x01, feat_idx, 0x03, &[]);
    let transport = MockTransport::new(vec![get_feat, set_resp]);
    let mut access = FeatureAccess::new(transport, 0x01);

    access.set_dpi(1600).unwrap();

    let writes = access.transport().written();
    assert_eq!(writes.len(), 2);
    // Second write: setSensorDpi
    assert_eq!(writes[1][2], feat_idx); // feature index
    assert_eq!(writes[1][3], 0x31); // function_id=3, sw_id=1
    assert_eq!(writes[1][4], 0x00); // sensor
    assert_eq!(writes[1][5], 0x06); // dpi hi (1600 = 0x0640)
    assert_eq!(writes[1][6], 0x40); // dpi lo
}

// ── SmartShift tests ──

#[test]
fn smart_shift_enhanced_read() {
    let feat_idx = 0x09;
    let get_feat = make_get_feature_response(0x01, feat_idx); // 0x2111 found
    let read_resp = make_feature_response(0x01, feat_idx, 0x01, &[2, 15]); // mode=2 (smart), threshold=15
    let transport = MockTransport::new(vec![get_feat, read_resp]);
    let mut access = FeatureAccess::new(transport, 0x01);

    let info = access.get_smart_shift().unwrap();
    assert_eq!(info.mode, 2);
    assert_eq!(info.threshold, 15);
    assert!(info.is_enhanced);
}

#[test]
fn smart_shift_standard_fallback() {
    let enhanced_not_found = make_get_feature_response(0x01, 0x00); // 0x2111 not found
    let feat_idx = 0x09;
    let standard_found = make_get_feature_response(0x01, feat_idx); // 0x2110 found
    let read_resp = make_feature_response(0x01, feat_idx, 0x00, &[1, 30]); // mode=1 (freespin), threshold=30
    let transport = MockTransport::new(vec![enhanced_not_found, standard_found, read_resp]);
    let mut access = FeatureAccess::new(transport, 0x01);

    let info = access.get_smart_shift().unwrap();
    assert_eq!(info.mode, 1);
    assert_eq!(info.threshold, 30);
    assert!(!info.is_enhanced);
}

#[test]
fn set_smart_shift_enhanced() {
    let feat_idx = 0x09;
    let get_feat = make_get_feature_response(0x01, feat_idx);
    let set_resp = make_feature_response(0x01, feat_idx, 0x02, &[]);
    let transport = MockTransport::new(vec![get_feat, set_resp]);
    let mut access = FeatureAccess::new(transport, 0x01);

    access.set_smart_shift(2, 20).unwrap();

    let writes = access.transport().written();
    assert_eq!(writes[1][3], 0x21); // function_id=2 (enhanced write), sw_id=1
    assert_eq!(writes[1][4], 2); // mode
    assert_eq!(writes[1][5], 20); // threshold
}

// ── HiResWheel tests ──

#[test]
fn hires_wheel_read() {
    let feat_idx = 0x0A;
    let get_feat = make_get_feature_response(0x01, feat_idx);
    // getCapabilities: multiplier=8, flags: has_ratchet(0x04) + has_invert(0x08) = 0x0C
    let caps_resp = make_feature_response(0x01, feat_idx, 0x00, &[8, 0x0C]);
    // getMode: hi_res(0x02) + invert(0x04) = 0x06
    let mode_resp = make_feature_response(0x01, feat_idx, 0x01, &[0x06]);
    // getRatchet: ratcheted = 1
    let ratchet_resp = make_feature_response(0x01, feat_idx, 0x03, &[0x01]);
    let transport = MockTransport::new(vec![get_feat, caps_resp, mode_resp, ratchet_resp]);
    let mut access = FeatureAccess::new(transport, 0x01);

    let info = access.get_hires_wheel().unwrap();
    assert_eq!(info.multiplier, 8);
    assert!(info.has_invert);
    assert!(info.has_ratchet);
    assert!(info.hi_res);
    assert!(info.invert);
    assert!(info.ratchet);
}

#[test]
fn set_hires_wheel_mode_compose_bits() {
    let feat_idx = 0x0A;
    let get_feat = make_get_feature_response(0x01, feat_idx);
    let set_resp = make_feature_response(0x01, feat_idx, 0x02, &[]);
    let transport = MockTransport::new(vec![get_feat, set_resp]);
    let mut access = FeatureAccess::new(transport, 0x01);

    access.set_hires_wheel_mode(true, false).unwrap();

    let writes = access.transport().written();
    assert_eq!(writes[1][4], 0x02); // hi_res bit only
}

#[test]
fn set_hires_wheel_ratchet() {
    let feat_idx = 0x0A;
    let get_feat = make_get_feature_response(0x01, feat_idx);
    let set_resp = make_feature_response(0x01, feat_idx, 0x04, &[]);
    let transport = MockTransport::new(vec![get_feat, set_resp]);
    let mut access = FeatureAccess::new(transport, 0x01);

    access.set_hires_wheel_ratchet(false).unwrap();

    let writes = access.transport().written();
    assert_eq!(writes[1][4], 0x00); // freespin
}

// ── discover_capabilities test ──

#[test]
fn discover_capabilities_mixed() {
    // FwVersion found at idx 4, DPI found at idx 8, SmartShift not found, HiResWheel found at idx 10
    let responses = vec![
        make_get_feature_response(0x01, 0x04), // DEVICE_FW_VERSION -> found
        make_get_feature_response(0x01, 0x08), // ADJUSTABLE_DPI -> found
        make_get_feature_response(0x01, 0x00), // SMART_SHIFT -> not found
        make_get_feature_response(0x01, 0x00), // SMART_SHIFT_ENHANCED -> not found
        make_get_feature_response(0x01, 0x00), // (smart_shift_enhanced again for has_smart_shift_enhanced)
        make_get_feature_response(0x01, 0x0A), // HIRES_WHEEL -> found
        make_get_feature_response(0x01, 0x00), // REPROG_CONTROLS_V4 -> not found
    ];
    let transport = MockTransport::new(responses);
    let mut access = FeatureAccess::new(transport, 0x01);

    let caps = access.discover_capabilities();
    assert!(caps.has_firmware_version);
    assert!(caps.has_dpi);
    assert!(!caps.has_smart_shift);
    assert!(!caps.has_smart_shift_enhanced);
    assert!(caps.has_hires_wheel);
    assert!(!caps.has_reprog_controls);
}

// ── ReprogControls tests ──

#[test]
fn reprog_controls_enumerate() {
    let feat_idx = 0x0B;
    let get_feat = make_get_feature_response(0x01, feat_idx);
    // getControlCount: 2 controls
    let count_resp = make_feature_response(0x01, feat_idx, 0x00, &[2]);

    // Control 0: Left Button (CID=0x0050, TaskID=0x0038, flags1=0x40 divertable, pos=0, group=1, gmask=1, flags2=0)
    let info0_resp = make_feature_response(
        0x01,
        feat_idx,
        0x01,
        &[
            0x00, 0x50, // CID
            0x00, 0x38, // Task ID
            0x40, // flags1 (divertable)
            0x00, // position
            0x01, // group
            0x01, // group_mask
            0x00, // flags2
        ],
    );
    // getControlMapping for CID 0x0050: mapped to itself (0x0050)
    let map0_resp = make_feature_response(
        0x01,
        feat_idx,
        0x02,
        &[
            0x00, 0x50, // CID echo
            0x00, // mapping flags
            0x00, 0x50, // mapped to
        ],
    );

    // Control 1: Smart Shift (CID=0x00C4, TaskID=0x009C, flags1=0x00 not divertable)
    let info1_resp = make_feature_response(
        0x01,
        feat_idx,
        0x01,
        &[
            0x00, 0xC4, 0x00, 0x9C, 0x00, // not divertable
            0x00, 0x00, 0x00, 0x00,
        ],
    );
    let map1_resp =
        make_feature_response(0x01, feat_idx, 0x02, &[0x00, 0xC4, 0x00, 0x00, 0xC4]);

    let transport = MockTransport::new(vec![
        get_feat, count_resp, info0_resp, map0_resp, info1_resp, map1_resp,
    ]);
    let mut access = FeatureAccess::new(transport, 0x01);

    let controls = access.get_reprog_controls().unwrap();
    assert_eq!(controls.len(), 2);

    assert_eq!(controls[0].cid, 0x0050);
    assert_eq!(controls[0].name, "Left Button");
    assert!(controls[0].is_remappable);
    assert_eq!(controls[0].mapped_to, 0x0050);

    assert_eq!(controls[1].cid, 0x00C4);
    assert_eq!(controls[1].name, "Smart Shift");
    assert!(!controls[1].is_remappable);
}

#[test]
fn set_reprog_control_sends_correct_bytes() {
    let feat_idx = 0x0B;
    let get_feat = make_get_feature_response(0x01, feat_idx);
    let set_resp = make_feature_response(0x01, feat_idx, 0x03, &[]);
    let transport = MockTransport::new(vec![get_feat, set_resp]);
    let mut access = FeatureAccess::new(transport, 0x01);

    access.set_reprog_control_mapping(0x0050, 0x0051).unwrap();

    let writes = access.transport().written();
    assert_eq!(writes[1][4], 0x00); // CID hi
    assert_eq!(writes[1][5], 0x50); // CID lo
    assert_eq!(writes[1][6], 0x00); // flags
    assert_eq!(writes[1][7], 0x00); // remap hi
    assert_eq!(writes[1][8], 0x51); // remap lo
}
