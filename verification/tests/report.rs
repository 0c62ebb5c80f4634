use hidpp::error::HidppError;
use hidpp::report::{HidppReport, ERROR_MSG, LONG_REPORT_ID, LONG_REPORT_LEN, SHORT_REPORT_ID, SHORT_REPORT_LEN};

#[test]
fn long_report_construction() {
    let report = HidppReport::new_long(0x01, 0x05, 0x02, 0x0A);
    assert_eq!(report.report_id(), LONG_REPORT_ID);
    assert_eq!(report.device_index(), 0x01);
    assert_eq!(report.feature_index(), 0x05);
    assert_eq!(report.function_id(), 0x02);
    assert_eq!(report.sw_id(), 0x0A);
    assert_eq!(report.len, LONG_REPORT_LEN);
}

#[test]
fn short_report_construction() {
    let report = HidppReport::new_short(0xFF, 0x00, 0x01, 0x01);
    assert_eq!(report.report_id(), SHORT_REPORT_ID);
    assert_eq!(report.device_index(), 0xFF);
    assert_eq!(report.feature_index(), 0x00);
    assert_eq!(report.function_id(), 0x01);
    assert_eq!(report.sw_id(), 0x01);
    assert_eq!(report.len, SHORT_REPORT_LEN);
}

#[test]
fn report_params() {
    let mut report = HidppReport::new_long(0x01, 0x05, 0x00, 0x01);
    report.set_param(0, 0x18);
    report.set_param(1, 0x14);
    assert_eq!(report.params()[0], 0x18);
    assert_eq!(report.params()[1], 0x14);
}

#[test]
fn from_bytes_long() {
    let mut data = [0u8; LONG_REPORT_LEN];
    data[0] = LONG_REPORT_ID;
    data[1] = 0x01;
    data[2] = 0x05;
    data[3] = 0x21; // function_id=2, sw_id=1

    let report = HidppReport::from_bytes(&data).unwrap();
    assert_eq!(report.device_index(), 0x01);
    assert_eq!(report.feature_index(), 0x05);
    assert_eq!(report.function_id(), 0x02);
    assert_eq!(report.sw_id(), 0x01);
}

#[test]
fn from_bytes_short() {
    let mut data = [0u8; SHORT_REPORT_LEN];
    data[0] = SHORT_REPORT_ID;
    data[1] = 0xFF;
    data[2] = 0x00;
    data[3] = 0x11; // function_id=1, sw_id=1

    let report = HidppReport::from_bytes(&data).unwrap();
    assert_eq!(report.device_index(), 0xFF);
    assert_eq!(report.function_id(), 0x01);
}

#[test]
fn error_detection() {
    let mut report = HidppReport::new_long(0x01, ERROR_MSG, 0x00, 0x00);
    assert!(report.is_error());

    report.data[2] = 0x05;
    assert!(!report.is_error());
}

#[test]
fn from_bytes_too_short_fails() {
    let data = [LONG_REPORT_ID, 0x01];
    let result = HidppReport::from_bytes(&data);
    assert!(matches!(result, Err(HidppError::InvalidLength { .. })));
}

// ── Further cases ──

#[test]
fn from_bytes_empty_fails_with_zero_length() {
    let result = HidppReport::from_bytes(&[]);
    assert!(matches!(result, Err(HidppError::InvalidLength { expected: 7, got: 0 })));
}

#[test]
fn from_bytes_unknown_report_id_fails() {
    let data = [0x12u8, 0x01, 0x02, 0x03, 0x04, 0x05, 0x06, 0x07];
    let result = HidppReport::from_bytes(&data);
    assert!(matches!(result, Err(HidppError::InvalidLength { expected: 7, got: 8 })));
}

#[test]
fn from_bytes_long_too_short_reports_expected_length() {
    let data = [LONG_REPORT_ID, 0x01, 0x02, 0x03, 0x04, 0x05, 0x06, 0x07];
    let result = HidppReport::from_bytes(&data);
    assert!(matches!(result, Err(HidppError::InvalidLength { expected: 20, got: 8 })));
}

#[test]
fn from_bytes_ignores_trailing_bytes_and_zero_pads() {
    let mut data = [0xAAu8; 64];
    data[0] = SHORT_REPORT_ID;
    let report = HidppReport::from_bytes(&data).unwrap();
    assert_eq!(report.len, SHORT_REPORT_LEN);
    assert_eq!(report.as_bytes(), &data[..7]);
    assert!(report.data[7..].iter().all(|&b| b == 0));
    assert_eq!(report.params(), &[0xAA, 0xAA, 0xAA]);
}

#[test]
fn wire_bytes_parse_back_to_the_same_report() {
    let mut report = HidppReport::new_long(0x02, 0x07, 0x03, 0x05);
    report.set_param(5, 0x42);
    let parsed = HidppReport::from_bytes(report.as_bytes()).unwrap();
    assert_eq!(parsed.data, report.data);
    assert_eq!(parsed.len, report.len);

    let short = HidppReport::new_short(0x01, 0x02, 0x0F, 0x03);
    let parsed = HidppReport::from_bytes(short.as_bytes()).unwrap();
    assert_eq!(parsed.data, short.data);
    assert_eq!(parsed.len, SHORT_REPORT_LEN);
}

#[test]
fn header_packs_nibbles() {
    let report = HidppReport::new_long(0x01, 0x05, 0x1F, 0x3A);
    // function 0x1F keeps its low nibble, sw_id keeps its low nibble
    assert_eq!(report.data[3], 0xFA);
    assert_eq!(report.function_id(), 0x0F);
    assert_eq!(report.sw_id(), 0x0A);
}

#[test]
fn set_param_leaves_other_bytes() {
    let mut report = HidppReport::new_long(0x01, 0x05, 0x00, 0x01);
    report.set_param(15, 0x99);
    assert_eq!(report.data[19], 0x99);
    assert_eq!(report.params().len(), 16);
    assert!(report.params()[..15].iter().all(|&b| b == 0));
}
