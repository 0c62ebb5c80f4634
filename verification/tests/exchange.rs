use std::cell::RefCell;

use hidpp::error::HidppError;
use hidpp::features::{FeatureAccess, HidTransport};

/// Transport double: replays scripted read results and records writes.
struct ScriptedTransport {
    reads: RefCell<Vec<Result<Vec<u8>, HidppError>>>,
    writes: RefCell<Vec<Vec<u8>>>,
    read_args: RefCell<Vec<(i32, usize)>>,
}

impl ScriptedTransport {
    fn new(reads: Vec<Result<Vec<u8>, HidppError>>) -> Self {
        Self { reads: RefCell::new(reads), writes: RefCell::new(Vec::new()), read_args: RefCell::new(Vec::new()) }
    }
}

impl HidTransport for ScriptedTransport {
    fn write(&self, data: &[u8]) -> Result<usize, HidppError> {
        self.writes.borrow_mut().push(data.to_vec());
        Ok(data.len())
    }

    fn read_timeout(&self, buf: &mut [u8], timeout_ms: i32) -> Result<usize, HidppError> {
        self.read_args.borrow_mut().push((timeout_ms, buf.len()));
        let mut reads = self.reads.borrow_mut();
        if reads.is_empty() {
            return Ok(0);
        }
        match reads.remove(0) {
            Ok(bytes) => {
                let len = bytes.len().min(buf.len());
                buf[..len].copy_from_slice(&bytes[..len]);
                Ok(len)
            }
            Err(e) => Err(e),
        }
    }
}

fn root_reply(device: u8, index: u8) -> Vec<u8> {
    let mut data = vec![0u8; 20];
    data[0] = 0x11;
    data[1] = device;
    data[3] = 0x01;
    data[4] = index;
    data
}

fn notification(device: u8) -> Vec<u8> {
    let mut data = vec![0u8; 20];
    data[0] = 0x11;
    data[1] = device;
    data[2] = 0x04;
    data
}

#[test]
fn empty_read_is_a_timeout() {
    let mut access = FeatureAccess::new(ScriptedTransport::new(vec![]), 0x01);
    assert!(matches!(access.get_feature_index(0x1000), Err(HidppError::Timeout)));
}

#[test]
fn ten_unrelated_reports_time_out() {
    let reads = (0..10).map(|_| Ok(notification(0x01))).chain(std::iter::once(Ok(root_reply(0x01, 3)))).collect();
    let mut access = FeatureAccess::new(ScriptedTransport::new(reads), 0x01);
    assert!(matches!(access.get_feature_index(0x1000), Err(HidppError::Timeout)));
}

#[test]
fn nine_unrelated_reports_are_skipped() {
    let reads = (0..9).map(|_| Ok(notification(0x01))).chain(std::iter::once(Ok(root_reply(0x01, 3)))).collect();
    let mut access = FeatureAccess::new(ScriptedTransport::new(reads), 0x01);
    assert_eq!(access.get_feature_index(0x1000).unwrap(), 3);
}

#[test]
fn reply_for_another_device_is_skipped() {
    let reads = vec![Ok(root_reply(0x02, 9)), Ok(root_reply(0x01, 4))];
    let mut access = FeatureAccess::new(ScriptedTransport::new(reads), 0x01);
    assert_eq!(access.get_feature_index(0x1000).unwrap(), 4);
}

#[test]
fn transport_errors_pass_through() {
    let reads = vec![Err(HidppError::Io("unplugged".to_string()))];
    let mut access = FeatureAccess::new(ScriptedTransport::new(reads), 0x01);
    match access.get_feature_index(0x1000) {
        Err(HidppError::Io(msg)) => assert_eq!(msg, "unplugged"),
        other => panic!("unexpected result: {:?}", other),
    }
}

#[test]
fn malformed_reply_is_an_error() {
    let reads = vec![Ok(vec![0x11, 0x01, 0x00])];
    let mut access = FeatureAccess::new(ScriptedTransport::new(reads), 0x01);
    assert!(matches!(
        access.get_feature_index(0x1000),
        Err(HidppError::InvalidLength { expected: 20, got: 3 })
    ));
}

#[test]
fn short_reply_is_too_short_for_the_identifier() {
    let mut short = vec![0x10, 0x01, 0x0C, 0x01, 1, 2, 3];
    let reads = vec![Ok(root_reply(0x01, 0x0C)), Ok(std::mem::take(&mut short))];
    let mut access = FeatureAccess::new(ScriptedTransport::new(reads), 0x01);
    assert!(matches!(
        access.get_crypto_identifier(),
        Err(HidppError::InvalidLength { expected: 16, got: 3 })
    ));
}

#[test]
fn battery_errors_other_than_absence_are_returned() {
    let mut error = vec![0u8; 20];
    error[0] = 0x11;
    error[1] = 0x01;
    error[2] = 0xFF;
    error[4] = 0x00; // IRoot
    error[5] = 0x05;
    let mut access = FeatureAccess::new(ScriptedTransport::new(vec![Ok(error)]), 0x01);
    assert!(matches!(
        access.get_battery(),
        Err(HidppError::ProtocolError { function: 0, error_code: 5 })
    ));
}

#[test]
fn dpi_list_reads_pages_until_terminator() {
    let dpi_page = |values: &[u8]| {
        let mut data = vec![0u8; 20];
        data[0] = 0x11;
        data[1] = 0x01;
        data[2] = 0x08;
        data[3] = 0x11;
        data[4] = 0x00; // sensor echo
        for (i, &b) in values.iter().enumerate() {
            data[5 + i] = b;
        }
        data
    };
    // first page: 7 values fill all 15 bytes but the last; second page ends it
    let first = dpi_page(&[0x00, 0x64, 0x00, 0xC8, 0x01, 0x2C, 0x01, 0x90, 0x01, 0xF4, 0x02, 0x58, 0x02, 0xBC, 0x03]);
    let second = dpi_page(&[0x20, 0x00, 0x00]);
    let reads = vec![Ok(root_reply(0x01, 0x08)), Ok(first), Ok(second)];
    let mut access = FeatureAccess::new(ScriptedTransport::new(reads), 0x01);
    let list = access.get_dpi_list().unwrap();
    assert_eq!(list, vec![100, 200, 300, 400, 500, 600, 700, 800]);
    let writes = access.transport().writes.borrow();
    assert_eq!(writes.len(), 3);
    assert_eq!(&writes[1][4..7], &[0, 0, 0]);
    assert_eq!(&writes[2][4..7], &[0, 0, 1]);
}

#[test]
fn dpi_settings_combine_list_and_current() {
    let page = {
        let mut d = vec![0u8; 20];
        d[0] = 0x11;
        d[1] = 0x01;
        d[2] = 0x08;
        d[3] = 0x11;
        d[5] = 0x03;
        d[6] = 0x20;
        d
    };
    let current = {
        let mut d = vec![0u8; 20];
        d[0] = 0x11;
        d[1] = 0x01;
        d[2] = 0x08;
        d[3] = 0x21;
        d[5] = 0x03;
        d[6] = 0x20;
        d[7] = 0x03;
        d[8] = 0x20;
        d
    };
    let reads = vec![Ok(root_reply(0x01, 0x08)), Ok(page), Ok(root_reply(0x01, 0x08)), Ok(current)];
    let mut access = FeatureAccess::new(ScriptedTransport::new(reads), 0x01);
    let info = access.get_dpi_settings().unwrap();
    assert_eq!(info.dpi_list, vec![800]);
    assert_eq!(info.current_dpi, 800);
    assert_eq!(info.default_dpi, 800);
}

#[test]
fn every_read_waits_two_seconds_into_a_64_byte_buffer() {
    let reads = vec![Ok(notification(0x01)), Ok(notification(0x01)), Ok(root_reply(0x01, 5))];
    let mut access = FeatureAccess::new(ScriptedTransport::new(reads), 0x01);
    assert_eq!(access.get_feature_index(0x1000).unwrap(), 5);
    assert_eq!(access.transport().writes.borrow().len(), 1);
    assert_eq!(*access.transport().read_args.borrow(), vec![(2000, 64), (2000, 64), (2000, 64)]);
}
