use std::cell::RefCell;

use hidpp::config::{apply_saved_settings, setting_actions, AppConfig, ButtonRemap, DeviceSettingsConfig, SettingAction};
use hidpp::error::HidppError;
use hidpp::features::{FeatureAccess, HidTransport};

/// A device that knows every feature at index 0x20 and answers every request
/// by echoing its header; feature lookups for `missing` report index 0.
struct EchoDevice {
    missing: u16,
    pending: RefCell<Option<Vec<u8>>>,
    writes: RefCell<Vec<Vec<u8>>>,
}

impl EchoDevice {
    fn new(missing: u16) -> Self {
        Self { missing, pending: RefCell::new(None), writes: RefCell::new(Vec::new()) }
    }
}

impl HidTransport for EchoDevice {
    fn write(&self, data: &[u8]) -> Result<usize, HidppError> {
        self.writes.borrow_mut().push(data.to_vec());
        let mut reply = data.to_vec();
        if data[2] == 0x00 {
            let feature_id = ((data[4] as u16) << 8) | data[5] as u16;
            reply[4] = if feature_id == self.missing { 0 } else { 0x20 };
        }
        *self.pending.borrow_mut() = Some(reply);
        Ok(data.len())
    }

    fn read_timeout(&self, buf: &mut [u8], _timeout_ms: i32) -> Result<usize, HidppError> {
        match self.pending.borrow_mut().take() {
            Some(reply) => {
                buf[..reply.len()].copy_from_slice(&reply);
                Ok(reply.len())
            }
            None => Err(HidppError::Timeout),
        }
    }
}

fn full_settings() -> DeviceSettingsConfig {
    DeviceSettingsConfig {
        dpi: Some(1600),
        smart_shift_mode: Some(2),
        smart_shift_threshold: Some(15),
        hires_hi_res: Some(true),
        hires_invert: Some(false),
        hires_ratchet: Some(true),
        button_remaps: vec![ButtonRemap { cid: 0x0050, remap_to: 0x0051 }, ButtonRemap { cid: 0x0053, remap_to: 0x0056 }],
    }
}

#[test]
fn defaults_are_empty() {
    let s = DeviceSettingsConfig::default();
    assert!(s.dpi.is_none() && s.smart_shift_mode.is_none() && s.hires_ratchet.is_none());
    assert!(s.button_remaps.is_empty());
    assert!(setting_actions(&s).is_empty());
    assert!(AppConfig::default().device.is_empty());
}

#[test]
fn actions_follow_the_saved_settings_in_order() {
    let actions = setting_actions(&full_settings());
    assert_eq!(
        actions,
        vec![
            SettingAction::SetDpi(1600),
            SettingAction::SetSmartShift { mode: 2, threshold: 15 },
            SettingAction::SetHiResMode { hi_res: true, invert: false },
            SettingAction::SetHiResRatchet(true),
            SettingAction::RemapButton { cid: 0x0050, remap_to: 0x0051 },
            SettingAction::RemapButton { cid: 0x0053, remap_to: 0x0056 },
        ]
    );
}

#[test]
fn half_saved_pairs_are_not_applied() {
    let s = DeviceSettingsConfig {
        smart_shift_mode: Some(1),
        hires_invert: Some(true),
        ..DeviceSettingsConfig::default()
    };
    assert!(setting_actions(&s).is_empty());
}

#[test]
fn applying_writes_every_setting() {
    let mut access = FeatureAccess::new(EchoDevice::new(0xFFFF), 0x01);
    let failed = apply_saved_settings(&mut access, &full_settings());
    assert!(failed.is_empty());
    let writes = access.transport().writes.borrow();
    // each change looks up its feature, then writes
    assert_eq!(writes.len(), 12);
    assert_eq!(&writes[1][2..7], &[0x20, 0x31, 0x00, 0x06, 0x40]); // set DPI 1600
    assert_eq!(&writes[9][2..9], &[0x20, 0x31, 0x00, 0x50, 0x00, 0x00, 0x51]); // remap
}

#[test]
fn a_failed_change_does_not_stop_the_others() {
    // The wheel feature is missing: both wheel changes fail, the rest apply.
    let mut access = FeatureAccess::new(EchoDevice::new(0x2121), 0x01);
    let failed = apply_saved_settings(&mut access, &full_settings());
    assert_eq!(failed.len(), 2);
    assert_eq!(failed[0].0, SettingAction::SetHiResMode { hi_res: true, invert: false });
    assert!(matches!(failed[0].1, HidppError::FeatureNotFound { feature_id: 0x2121 }));
    assert_eq!(failed[1].0, SettingAction::SetHiResRatchet(true));
    let writes = access.transport().writes.borrow();
    assert_eq!(writes.len(), 10);
}
