use vstd::prelude::*;

use crate::cid_names::{cid_label, cid_name};
use crate::error::HidppError;
use crate::report::{
    header_byte, lemma_header_roundtrip, parse_report, zeros, HidppReport, ERROR_MSG, LONG_REPORT_ID,
    LONG_REPORT_LEN,
};
pub use crate::transport::{FeatureAccess, HidTransport};

use crate::session::{
    call_result, calls_events, lemma_calls_push, lemma_session_done, lemma_session_failed,
    lemma_session_lookup_failed, lemma_session_start, lemma_session_step, lookup_call,
    lookup_outcome, lookup_result, params_view, reply_view, session, session_prefix,
    session_replies, skipped, Call, Plan, Reply, request_result, lemma_request_ends, lemma_calls_empty, lemma_request_ends_once,
    lemma_request_writes_once, read_with, request_timeout,
};
use crate::transport::{
    added, device_frame, grew, lemma_grew_chain, lemma_grew_refl, lemma_grew_split, read_event,
    TransportEvent,
};
use crate::text::{
    decimal_digits, hex_digits, push_char, push_decimal, push_hex, string_from_utf8_lossy,
    utf8_lossy,
};

verus! {

/// Well-known HID++ 2.0 feature IDs.
pub const FEATURE_ROOT: u16 = 0x0000;
pub const FEATURE_CRYPTO_IDENTIFIER: u16 = 0x0021;
pub const FEATURE_DEVICE_FW_VERSION: u16 = 0x0003;
pub const FEATURE_DEVICE_NAME: u16 = 0x0005;
pub const FEATURE_BATTERY_STATUS: u16 = 0x1000;
pub const FEATURE_UNIFIED_BATTERY: u16 = 0x1004;
pub const FEATURE_CHANGE_HOST: u16 = 0x1814;
pub const FEATURE_REPROG_CONTROLS_V4: u16 = 0x1B04;
pub const FEATURE_SMART_SHIFT: u16 = 0x2110;
pub const FEATURE_SMART_SHIFT_ENHANCED: u16 = 0x2111;
pub const FEATURE_HIRES_WHEEL: u16 = 0x2121;
pub const FEATURE_ADJUSTABLE_DPI: u16 = 0x2201;

/// Software ID used in our requests (arbitrary, for matching responses).
pub const SW_ID: u8 = 0x01;

/// Battery charge level (coarse classification).
#[derive(Debug, Clone, Copy, PartialEq, Eq, Structural)]
pub enum BatteryLevel {
    Full,
    Good,
    Low,
    Critical,
    Empty,
}

/// Battery charging status.
#[derive(Debug, Clone, Copy, PartialEq, Eq, Structural)]
pub enum ChargingStatus {
    Discharging,
    Recharging,
    Full,
    SlowRecharge,
    InvalidBattery,
    ThermalError,
    Unknown,
}

/// Combined battery information from either UnifiedBattery or BatteryStatus features.
#[derive(Debug, Clone)]
pub struct BatteryInfo {
    pub percentage: Option<u8>,
    pub level: BatteryLevel,
    pub status: ChargingStatus,
}

/// Firmware entity type.
#[derive(Debug, Clone, Copy, PartialEq, Eq, Structural)]
pub enum FirmwareKind {
    Main,
    Bootloader,
    Hardware,
    Other,
}

/// Firmware version info for a single entity.
#[derive(Debug, Clone)]
pub struct FirmwareInfo {
    pub kind: FirmwareKind,
    pub prefix: String,
    pub version: String,
    pub build: u16,
}

/// DPI settings read from device.
#[derive(Debug, Clone)]
pub struct DpiInfo {
    pub current_dpi: u16,
    pub default_dpi: u16,
    pub dpi_list: Vec<u16>,
}

/// SmartShift settings.
#[derive(Debug, Clone)]
pub struct SmartShiftInfo {
    pub mode: u8,
    pub threshold: u8,
    pub is_enhanced: bool,
}

/// Hi-res scroll wheel settings.
#[derive(Debug, Clone)]
pub struct HiResWheelInfo {
    pub multiplier: u8,
    pub has_invert: bool,
    pub has_ratchet: bool,
    pub hi_res: bool,
    pub invert: bool,
    pub ratchet: bool,
}

/// A programmable control (button) on the device.
#[derive(Debug, Clone)]
pub struct ReprogControl {
    pub cid: u16,
    pub task_id: u16,
    pub flags: u16,
    pub position: u8,
    pub group: u8,
    pub group_mask: u8,
    pub mapped_to: u16,
    pub name: String,
    pub is_remappable: bool,
}

/// Device capability flags (which features are supported).
#[derive(Debug, Clone)]
pub struct DeviceCapabilities {
    pub has_firmware_version: bool,
    pub has_dpi: bool,
    pub has_smart_shift: bool,
    pub has_smart_shift_enhanced: bool,
    pub has_hires_wheel: bool,
    pub has_reprog_controls: bool,
}

// ── Byte access ──

/// Byte `i` of a parameter block, 0 where the block is shorter.
pub open spec fn byte_at(p: Seq<u8>, i: int) -> u8 {
    if 0 <= i < p.len() {
        p[i]
    } else {
        0
    }
}

/// A big-endian 16-bit value.
pub open spec fn be16(hi: u8, lo: u8) -> u16 {
    (hi as nat * 256 + lo as nat) as u16
}

pub(crate) fn byte_or_zero(p: &[u8], i: usize) -> (b: u8)
    ensures
        b == byte_at(p@, i as int),
{
    if i < p.len() {
        p[i]
    } else {
        0
    }
}

pub(crate) fn be16_of(hi: u8, lo: u8) -> (v: u16)
    ensures
        v == be16(hi, lo),
{
    let v = ((hi as u16) << 8) | (lo as u16);
    assert(((hi as u16) << 8u16) | (lo as u16) == (hi as u16) * 256 + (lo as u16)) by (bit_vector);
    v
}

// ── Requests ──

/// The 20 bytes of a long request: header, the given parameters, zero padding.
pub open spec fn long_request(device: u8, feature: u8, function: u8, params: Seq<u8>) -> Seq<u8> {
    seq![LONG_REPORT_ID, device, feature, header_byte(function, SW_ID)] + params + zeros(
        16 - params.len(),
    )
}

/// Builds a long request with the given parameter bytes.
pub fn long_request_with(device: u8, feature: u8, function: u8, params: &[u8]) -> (r: HidppReport)
    requires
        params@.len() <= 16,
    ensures
        r.len == LONG_REPORT_LEN,
        r.data@ == long_request(device, feature, function, params@),
        r.device_index_of() == device,
        r.feature_index_of() == feature,
        function < 16 ==> r.function_id_of() == function,
{
    proof {
        lemma_header_roundtrip(function, SW_ID);
    }
    let mut r = HidppReport::new_long(device, feature, function, SW_ID);
    let mut i: usize = 0;
    while i < params.len()
        invariant
            i <= params@.len() <= 16,
            r.len == LONG_REPORT_LEN,
            r.data@.len() == LONG_REPORT_LEN,
            r.data@[0] == LONG_REPORT_ID,
            r.data@[1] == device,
            r.data@[2] == feature,
            r.data@[3] == header_byte(function, SW_ID),
            forall|k: int| 0 <= k < i ==> r.data@[4 + k] == params@[k],
            forall|k: int| 4 + i <= k < LONG_REPORT_LEN ==> r.data@[k] == 0u8,
        decreases params@.len() - i,
    {
        r.set_param(i, params[i]);
        i = i + 1;
    }
    assert(r.data@ =~= long_request(device, feature, function, params@));
    r
}

/// IRoot.GetFeatureIndex request for a feature ID.
pub fn feature_index_request(device: u8, feature_id: u16) -> (r: HidppReport)
    ensures
        r.len == LONG_REPORT_LEN,
        r.data@ == long_request(device, 0, 0, seq![(feature_id >> 8u16) as u8, (feature_id & 0xFFu16) as u8]),
        r.device_index_of() == device,
        r.feature_index_of() == 0,
        r.function_id_of() == 0,
{
    let p = [(feature_id >> 8) as u8, (feature_id & 0xFF) as u8];
    let r = long_request_with(device, 0x00, 0x00, &p);
    assert(p@ =~= seq![(feature_id >> 8u16) as u8, (feature_id & 0xFFu16) as u8]);
    r
}

/// AdjustableDPI.setSensorDpi (function 3) for sensor 0.
pub fn set_dpi_request(device: u8, feature: u8, dpi: u16) -> (r: HidppReport)
    ensures
        r.len == LONG_REPORT_LEN,
        r.data@ == long_request(device, feature, 3, seq![0u8, (dpi >> 8u16) as u8, (dpi & 0xFFu16) as u8]),
        r.device_index_of() == device,
        r.feature_index_of() == feature,
        r.function_id_of() == 3,
{
    let p = [0x00, (dpi >> 8) as u8, (dpi & 0xFF) as u8];
    let r = long_request_with(device, feature, 0x03, &p);
    assert(p@ =~= seq![0u8, (dpi >> 8u16) as u8, (dpi & 0xFFu16) as u8]);
    r
}

/// SmartShift write request: function 2 of the enhanced feature, function 1
/// of the standard one, with the mode and threshold.
pub fn smart_shift_request(device: u8, feature: u8, enhanced: bool, mode: u8, threshold: u8) -> (r: HidppReport)
    ensures
        r.len == LONG_REPORT_LEN,
        r.data@ == long_request(device, feature, if enhanced { 2 } else { 1 }, seq![mode, threshold]),
        r.device_index_of() == device,
        r.feature_index_of() == feature,
        r.function_id_of() == if enhanced { 2u8 } else { 1u8 },
{
    let p = [mode, threshold];
    let r = long_request_with(device, feature, if enhanced { 0x02 } else { 0x01 }, &p);
    assert(p@ =~= seq![mode, threshold]);
    r
}

/// HiResWheel.setMode (function 2) with the composed mode byte.
pub fn hires_mode_request(device: u8, feature: u8, hi_res: bool, invert: bool) -> (r: HidppReport)
    ensures
        r.len == LONG_REPORT_LEN,
        r.data@ == long_request(device, feature, 2, seq![hires_mode_bits(hi_res, invert)]),
        r.device_index_of() == device,
        r.feature_index_of() == feature,
        r.function_id_of() == 2,
{
    let p = [hires_mode_byte(hi_res, invert)];
    let r = long_request_with(device, feature, 0x02, &p);
    assert(p@ =~= seq![hires_mode_bits(hi_res, invert)]);
    r
}

/// HiResWheel.setRatchet (function 4): 1 for ratchet, 0 for freespin.
pub fn hires_ratchet_request(device: u8, feature: u8, ratchet: bool) -> (r: HidppReport)
    ensures
        r.len == LONG_REPORT_LEN,
        r.data@ == long_request(device, feature, 4, seq![if ratchet { 1u8 } else { 0u8 }]),
        r.device_index_of() == device,
        r.feature_index_of() == feature,
        r.function_id_of() == 4,
{
    let p = [if ratchet { 0x01u8 } else { 0x00u8 }];
    let r = long_request_with(device, feature, 0x04, &p);
    assert(p@ =~= seq![if ratchet { 1u8 } else { 0u8 }]);
    r
}

/// ReprogControls.getControlMapping (function 2) for a CID.
pub fn control_mapping_request(device: u8, feature: u8, cid: u16) -> (r: HidppReport)
    ensures
        r.len == LONG_REPORT_LEN,
        r.data@ == long_request(device, feature, 2, seq![(cid >> 8u16) as u8, (cid & 0xFFu16) as u8]),
        r.device_index_of() == device,
        r.feature_index_of() == feature,
        r.function_id_of() == 2,
{
    let p = [(cid >> 8) as u8, (cid & 0xFF) as u8];
    let r = long_request_with(device, feature, 0x02, &p);
    assert(p@ =~= seq![(cid >> 8u16) as u8, (cid & 0xFFu16) as u8]);
    r
}

/// ReprogControls.setControlMapping (function 3): CID, mapping flags 0, target.
pub fn set_control_mapping_request(device: u8, feature: u8, cid: u16, remap_to: u16) -> (r: HidppReport)
    ensures
        r.len == LONG_REPORT_LEN,
        r.data@ == long_request(
            device,
            feature,
            3,
            seq![(cid >> 8u16) as u8, (cid & 0xFFu16) as u8, 0u8, (remap_to >> 8u16) as u8, (remap_to & 0xFFu16) as u8],
        ),
        r.device_index_of() == device,
        r.feature_index_of() == feature,
        r.function_id_of() == 3,
{
    let p = [(cid >> 8) as u8, (cid & 0xFF) as u8, 0x00, (remap_to >> 8) as u8, (remap_to & 0xFF) as u8];
    let r = long_request_with(device, feature, 0x03, &p);
    assert(p@ =~= seq![(cid >> 8u16) as u8, (cid & 0xFFu16) as u8, 0u8, (remap_to >> 8u16) as u8, (remap_to & 0xFFu16) as u8]);
    r
}

// ── Reply decoding ──

/// The feature index that an IRoot.GetFeatureIndex reply announces; index 0
/// means the feature is absent.
pub open spec fn feature_index_reply(p: Seq<u8>, feature_id: u16) -> Result<u8, HidppError> {
    if byte_at(p, 0) == 0 {
        Err(HidppError::FeatureNotFound { feature_id })
    } else {
        Ok(byte_at(p, 0))
    }
}

pub fn feature_index_from_params(params: &[u8], feature_id: u16) -> (r: Result<u8, HidppError>)
    ensures
        r == feature_index_reply(params@, feature_id),
{
    let index = byte_or_zero(params, 0);
    if index == 0 {
        Err(HidppError::FeatureNotFound { feature_id })
    } else {
        Ok(index)
    }
}

/// UnifiedBattery level from the level mask: the highest set flag wins.
pub open spec fn level_from_mask(m: u8) -> BatteryLevel {
    if m & 0x08u8 != 0 {
        BatteryLevel::Full
    } else if m & 0x04u8 != 0 {
        BatteryLevel::Good
    } else if m & 0x02u8 != 0 {
        BatteryLevel::Low
    } else if m & 0x01u8 != 0 {
        BatteryLevel::Critical
    } else {
        BatteryLevel::Empty
    }
}

/// UnifiedBattery charging status byte.
pub open spec fn unified_status(b: u8) -> ChargingStatus {
    if b == 0 {
        ChargingStatus::Discharging
    } else if b == 1 {
        ChargingStatus::Recharging
    } else if b == 2 || b == 3 {
        ChargingStatus::Full
    } else if b == 6 {
        ChargingStatus::SlowRecharge
    } else {
        ChargingStatus::Unknown
    }
}

/// Battery info from a UnifiedBattery.GetStatus reply.
pub open spec fn unified_battery_info(p: Seq<u8>) -> BatteryInfo {
    BatteryInfo {
        percentage: Some(byte_at(p, 0)),
        level: level_from_mask(byte_at(p, 1)),
        status: unified_status(byte_at(p, 2)),
    }
}

/// Battery level from a discharge percentage.
pub open spec fn level_from_discharge(l: u8) -> BatteryLevel {
    if l >= 80 {
        BatteryLevel::Full
    } else if l >= 40 {
        BatteryLevel::Good
    } else if l >= 15 {
        BatteryLevel::Low
    } else if l > 0 {
        BatteryLevel::Critical
    } else {
        BatteryLevel::Empty
    }
}

/// BatteryStatus charging status: the low three bits of the status byte.
pub open spec fn status_from_bits(b: u8) -> ChargingStatus {
    if b & 0x07u8 == 0 {
        ChargingStatus::Discharging
    } else if b & 0x07u8 == 1 {
        ChargingStatus::Recharging
    } else if b & 0x07u8 == 2 {
        ChargingStatus::Full
    } else {
        ChargingStatus::Unknown
    }
}

/// Battery info from a BatteryStatus.GetBatteryLevelStatus reply.
pub open spec fn battery_status_info(p: Seq<u8>) -> BatteryInfo {
    BatteryInfo {
        percentage: Some(byte_at(p, 0)),
        level: level_from_discharge(byte_at(p, 0)),
        status: status_from_bits(byte_at(p, 2)),
    }
}

pub fn unified_battery_from_params(params: &[u8]) -> (info: BatteryInfo)
    ensures
        info == unified_battery_info(params@),
{
    let percentage = byte_or_zero(params, 0);
    let level_mask = byte_or_zero(params, 1);
    let status_byte = byte_or_zero(params, 2);
    let level = if level_mask & 0x08 != 0 {
        BatteryLevel::Full
    } else if level_mask & 0x04 != 0 {
        BatteryLevel::Good
    } else if level_mask & 0x02 != 0 {
        BatteryLevel::Low
    } else if level_mask & 0x01 != 0 {
        BatteryLevel::Critical
    } else {
        BatteryLevel::Empty
    };
    let status = match status_byte {
        0 => ChargingStatus::Discharging,
        1 => ChargingStatus::Recharging,
        2 | 3 => ChargingStatus::Full,
        6 => ChargingStatus::SlowRecharge,
        _ => ChargingStatus::Unknown,
    };
    BatteryInfo { percentage: Some(percentage), level, status }
}

pub fn battery_status_from_params(params: &[u8]) -> (info: BatteryInfo)
    ensures
        info == battery_status_info(params@),
{
    let discharge_level = byte_or_zero(params, 0);
    let status_byte = byte_or_zero(params, 2);
    let level = if discharge_level >= 80 {
        BatteryLevel::Full
    } else if discharge_level >= 40 {
        BatteryLevel::Good
    } else if discharge_level >= 15 {
        BatteryLevel::Low
    } else if discharge_level > 0 {
        BatteryLevel::Critical
    } else {
        BatteryLevel::Empty
    };
    let status = match status_byte & 0x07 {
        0 => ChargingStatus::Discharging,
        1 => ChargingStatus::Recharging,
        2 => ChargingStatus::Full,
        _ => ChargingStatus::Unknown,
    };
    BatteryInfo { percentage: Some(discharge_level), level, status }
}

/// Firmware entity kind from the entity level (low nibble of byte 0).
pub open spec fn firmware_kind(level: u8) -> FirmwareKind {
    if level == 0 {
        FirmwareKind::Main
    } else if level == 1 {
        FirmwareKind::Bootloader
    } else if level == 2 {
        FirmwareKind::Hardware
    } else {
        FirmwareKind::Other
    }
}

/// "MM.mm" in upper-case hex, with ".Bbbbb" appended when the build is nonzero.
pub open spec fn firmware_version_text(major: u8, minor: u8, build: u16) -> Seq<char> {
    let base = hex_digits(major as nat, 2, true) + seq!['.'] + hex_digits(minor as nat, 2, true);
    if build > 0 {
        base + seq!['.', 'B'] + hex_digits(build as nat, 4, true)
    } else {
        base
    }
}

/// The firmware entity that a DeviceFwVersion.getFwInfo reply describes.
pub open spec fn firmware_info_of(fw: FirmwareInfo, p: Seq<u8>) -> bool {
    let level = byte_at(p, 0) & 0x0Fu8;
    &&& fw.kind == firmware_kind(level)
    &&& if level == 0 || level == 1 {
        let end = if p.len() < 4 { p.len() as int } else { 4 };
        &&& fw.prefix@ == utf8_lossy(p.subrange(1, end))
        &&& fw.build == be16(byte_at(p, 6), byte_at(p, 7))
        &&& fw.version@ == firmware_version_text(byte_at(p, 4), byte_at(p, 5), fw.build)
    } else if level == 2 {
        &&& fw.prefix@ == Seq::<char>::empty()
        &&& fw.version@ == decimal_digits(byte_at(p, 1) as nat)
        &&& fw.build == 0
    } else {
        &&& fw.prefix@ == Seq::<char>::empty()
        &&& fw.version@ == Seq::<char>::empty()
        &&& fw.build == 0
    }
}

pub fn firmware_info_from_params(params: &[u8]) -> (fw: FirmwareInfo)
    requires
        params@.len() >= 1,
    ensures
        firmware_info_of(fw, params@),
{
    let level = byte_or_zero(params, 0) & 0x0F;
    let kind = if level == 0 {
        FirmwareKind::Main
    } else if level == 1 {
        FirmwareKind::Bootloader
    } else if level == 2 {
        FirmwareKind::Hardware
    } else {
        FirmwareKind::Other
    };
    if level == 0 || level == 1 {
        let end = if params.len() < 4 { params.len() } else { 4 };
        let name_bytes = vstd::slice::slice_subrange(params, 1, end);
        let prefix = string_from_utf8_lossy(name_bytes);
        let major = byte_or_zero(params, 4);
        let minor = byte_or_zero(params, 5);
        let build = be16_of(byte_or_zero(params, 6), byte_or_zero(params, 7));
        let mut version = String::new();
        push_hex(&mut version, major as u64, 2, true);
        push_char(&mut version, '.');
        push_hex(&mut version, minor as u64, 2, true);
        let ghost base = version@;
        assert(base =~= hex_digits(major as nat, 2, true) + seq!['.'] + hex_digits(minor as nat, 2, true));
        if build > 0 {
            push_char(&mut version, '.');
            push_char(&mut version, 'B');
            push_hex(&mut version, build as u64, 4, true);
            assert(version@ =~= base + seq!['.', 'B'] + hex_digits(build as nat, 4, true));
        }
        FirmwareInfo { kind, prefix, version, build }
    } else if level == 2 {
        let rev = byte_or_zero(params, 1);
        let mut version = String::new();
        push_decimal(&mut version, rev as u64);
        assert(version@ =~= decimal_digits(rev as nat));
        FirmwareInfo { kind, prefix: String::new(), version, build: 0 }
    } else {
        FirmwareInfo { kind, prefix: String::new(), version: String::new(), build: 0 }
    }
}

// ── AdjustableDPI decoding ──

/// The values of a DPI range entry: `v`, `v + step`, ... up to `last`.
pub open spec fn dpi_range(v: int, step: int, last: int) -> Seq<u16>
    decreases last + step - v,
{
    if step <= 0 || v > last {
        Seq::empty()
    } else {
        seq![v as u16] + dpi_range(v + step, step, last)
    }
}

/// Decodes the sensor DPI list from byte `i` on, after the values `acc`:
/// 2-byte big-endian entries up to a zero entry; an entry whose top three
/// bits are set is a range whose low 13 bits are the step and whose next two
/// bytes are the last value, continuing from the previous value.
pub open spec fn dpi_list_decode(raw: Seq<u8>, i: nat, acc: Seq<u16>) -> Seq<u16>
    decreases raw.len() - i,
{
    if i + 1 >= raw.len() {
        acc
    } else {
        let val = be16(raw[i as int], raw[(i + 1) as int]);
        if val == 0 {
            acc
        } else if val >> 13u16 == 7 {
            let step = val & 0x1FFFu16;
            if i + 3 < raw.len() && step > 0 {
                let last = be16(raw[(i + 2) as int], raw[(i + 3) as int]);
                let next = if acc.len() > 0 {
                    acc + dpi_range(acc.last() + step, step as int, last as int)
                } else {
                    acc
                };
                dpi_list_decode(raw, i + 4, next)
            } else {
                acc
            }
        } else {
            dpi_list_decode(raw, i + 2, acc.push(val))
        }
    }
}

/// The DPI list that raw getSensorDpiList bytes encode.
pub open spec fn dpi_list_of(raw: Seq<u8>) -> Seq<u16> {
    dpi_list_decode(raw, 0, Seq::empty())
}

/// Decodes the DPI list from the collected getSensorDpiList bytes.
pub fn dpi_list_from_bytes(raw: &[u8]) -> (list: Vec<u16>)
    ensures
        list@ == dpi_list_of(raw@),
{
    let mut dpi_list: Vec<u16> = Vec::new();
    let mut i: usize = 0;
    while raw.len() > 1 && i < raw.len() - 1
        invariant
            i <= raw@.len(),
            dpi_list_of(raw@) == dpi_list_decode(raw@, i as nat, dpi_list@),
        ensures
            dpi_list_of(raw@) == dpi_list@,
        decreases raw@.len() - i,
    {
        let val = be16_of(raw[i], raw[i + 1]);
        if val == 0 {
            break;
        }
        if val >> 13 == 0b111 {
            let step = val & 0x1FFF;
            assert(val & 0x1FFFu16 <= 0x1FFFu16) by (bit_vector);
            if raw.len() > 3 && i < raw.len() - 3 && step > 0 {
                let last = be16_of(raw[i + 2], raw[i + 3]);
                if dpi_list.len() > 0 {
                    let prev = dpi_list[dpi_list.len() - 1];
                    let ghost before = dpi_list@;
                    let mut v: u32 = prev as u32 + step as u32;
                    while v <= last as u32
                        invariant
                            step > 0,
                            step <= 0x1FFF,
                            v <= last as u32 + step as u32 + 0x10000,
                            dpi_list@ + dpi_range(v as int, step as int, last as int) == before
                                + dpi_range(prev + step, step as int, last as int),
                        decreases last as u32 + step as u32 - v,
                    {
                        let ghost old_list = dpi_list@;
                        dpi_list.push(v as u16);
                        assert(dpi_range(v as int, step as int, last as int) == seq![v as u16]
                            + dpi_range(v + step, step as int, last as int));
                        assert(old_list + dpi_range(v as int, step as int, last as int) =~= dpi_list@
                            + dpi_range(v + step, step as int, last as int));
                        v = v + step as u32;
                    }
                    assert(dpi_range(v as int, step as int, last as int) =~= Seq::<u16>::empty());
                    assert(dpi_list@ =~= before + dpi_range(prev + step, step as int, last as int));
                }
                i = i + 4;
            } else {
                break;
            }
        } else {
            dpi_list.push(val);
            i = i + 2;
        }
    }
    dpi_list
}

/// Current and default DPI from a getSensorDpi reply; a zero current value
/// reads as the default.
pub open spec fn dpi_pair_of(p: Seq<u8>) -> (u16, u16) {
    let current = be16(byte_at(p, 1), byte_at(p, 2));
    let default = be16(byte_at(p, 3), byte_at(p, 4));
    (if current == 0 { default } else { current }, default)
}

pub fn dpi_pair_from_params(params: &[u8]) -> (r: (u16, u16))
    ensures
        r == dpi_pair_of(params@),
{
    let current = be16_of(byte_or_zero(params, 1), byte_or_zero(params, 2));
    let default = be16_of(byte_or_zero(params, 3), byte_or_zero(params, 4));
    let current = if current == 0 { default } else { current };
    (current, default)
}

/// Whether the collected DPI list bytes end in the 0x0000 terminator.
pub open spec fn dpi_bytes_terminated(raw: Seq<u8>) -> bool {
    raw.len() >= 2 && raw[raw.len() - 2] == 0 && raw[raw.len() - 1] == 0
}

/// The DPI list bytes that one getSensorDpiList page adds: its parameters
/// after the sensor echo byte.
pub open spec fn dpi_page_bytes(p: Seq<u8>) -> Seq<u8> {
    if p.len() > 1 {
        p.subrange(1, p.len() as int)
    } else {
        Seq::empty()
    }
}

// ── SmartShift, HiResWheel and ReprogControls decoding ──

pub open spec fn smart_shift_info(p: Seq<u8>, is_enhanced: bool) -> SmartShiftInfo {
    SmartShiftInfo { mode: byte_at(p, 0), threshold: byte_at(p, 1), is_enhanced }
}

pub fn smart_shift_from_params(params: &[u8], is_enhanced: bool) -> (info: SmartShiftInfo)
    ensures
        info == smart_shift_info(params@, is_enhanced),
{
    SmartShiftInfo {
        mode: byte_or_zero(params, 0),
        threshold: byte_or_zero(params, 1),
        is_enhanced,
    }
}

/// HiResWheel settings from the getCapabilities, getMode and getRatchet replies.
pub open spec fn hires_wheel_info(caps: Seq<u8>, mode: Seq<u8>, ratchet: Seq<u8>) -> HiResWheelInfo {
    HiResWheelInfo {
        multiplier: byte_at(caps, 0),
        has_invert: byte_at(caps, 1) & 0x08u8 != 0,
        has_ratchet: byte_at(caps, 1) & 0x04u8 != 0,
        hi_res: byte_at(mode, 0) & 0x02u8 != 0,
        invert: byte_at(mode, 0) & 0x04u8 != 0,
        ratchet: byte_at(ratchet, 0) & 0x01u8 != 0,
    }
}

pub fn hires_wheel_from_params(caps: &[u8], mode: &[u8], ratchet: &[u8]) -> (info: HiResWheelInfo)
    ensures
        info == hires_wheel_info(caps@, mode@, ratchet@),
{
    let multiplier = byte_or_zero(caps, 0);
    let cap_flags = byte_or_zero(caps, 1);
    let mode_byte = byte_or_zero(mode, 0);
    HiResWheelInfo {
        multiplier,
        has_invert: cap_flags & 0x08 != 0,
        has_ratchet: cap_flags & 0x04 != 0,
        hi_res: mode_byte & 0x02 != 0,
        invert: mode_byte & 0x04 != 0,
        ratchet: byte_or_zero(ratchet, 0) & 0x01 != 0,
    }
}

/// The HiResWheel mode byte: bit 1 for hi-res, bit 2 for invert.
pub open spec fn hires_mode_bits(hi_res: bool, invert: bool) -> u8 {
    ((if hi_res { 0x02u8 } else { 0u8 }) | (if invert { 0x04u8 } else { 0u8 })) as u8
}

pub fn hires_mode_byte(hi_res: bool, invert: bool) -> (b: u8)
    ensures
        b == hires_mode_bits(hi_res, invert),
{
    (if hi_res { 0x02u8 } else { 0u8 }) | (if invert { 0x04u8 } else { 0u8 })
}

/// A programmable control from its getControlInfo and getControlMapping replies.
pub open spec fn reprog_control_of(c: ReprogControl, info: Seq<u8>, mapping: Seq<u8>) -> bool {
    &&& c.cid == be16(byte_at(info, 0), byte_at(info, 1))
    &&& c.task_id == be16(byte_at(info, 2), byte_at(info, 3))
    &&& c.flags == be16(byte_at(info, 8), byte_at(info, 4))
    &&& c.position == byte_at(info, 5)
    &&& c.group == byte_at(info, 6)
    &&& c.group_mask == byte_at(info, 7)
    &&& c.mapped_to == be16(byte_at(mapping, 3), byte_at(mapping, 4))
    &&& c.name@ == cid_label(c.cid)
    &&& c.is_remappable == (byte_at(info, 4) & 0x40u8 != 0)
}

pub fn reprog_control_from_params(info: &[u8], mapping: &[u8]) -> (c: ReprogControl)
    ensures
        reprog_control_of(c, info@, mapping@),
{
    let cid = be16_of(byte_or_zero(info, 0), byte_or_zero(info, 1));
    let task_id = be16_of(byte_or_zero(info, 2), byte_or_zero(info, 3));
    let flags1 = byte_or_zero(info, 4);
    let flags = be16_of(byte_or_zero(info, 8), flags1);
    let mapped_to = be16_of(byte_or_zero(mapping, 3), byte_or_zero(mapping, 4));
    let name = String::from_str(cid_name(cid));
    ReprogControl {
        cid,
        task_id,
        flags,
        position: byte_or_zero(info, 5),
        group: byte_or_zero(info, 6),
        group_mask: byte_or_zero(info, 7),
        mapped_to,
        name,
        is_remappable: flags1 & 0x40 != 0,
    }
}

// ── Transport and request/response matching ──

/// A report that answers a request: a well-formed report from the device,
/// for the requested feature index and function.
pub open spec fn answers(r: HidppReport, device: u8, feature: u8, function: u8) -> bool {
    &&& r.wf()
    &&& r.device_index_of() == device
    &&& r.feature_index_of() == feature
    &&& r.function_id_of() == function
}

/// What a read report means to a pending request: an error (unparseable
/// bytes, or a device error message about the requested feature), the answer,
/// or an unrelated report to skip.
pub open spec fn reply_outcome(bytes: Seq<u8>, device: u8, feature: u8, function: u8) -> Result<
    Option<(Seq<u8>, usize)>,
    HidppError,
> {
    match parse_report(bytes) {
        Err(e) => Err(e),
        Ok((data, len)) => {
            let params = data.subrange(4, len as int);
            if data[2] == ERROR_MSG && data[1] == device && byte_at(params, 0) == feature {
                Err(HidppError::ProtocolError { function, error_code: byte_at(params, 1) })
            } else if data[1] == device && data[2] == feature && data[3] >> 4u8 == function {
                Ok(Some((data, len)))
            } else {
                Ok(None)
            }
        },
    }
}

/// Classifies one report read while waiting for the answer to a request.
pub fn classify_reply(bytes: &[u8], device: u8, feature: u8, function: u8) -> (r: Result<
    Option<HidppReport>,
    HidppError,
>)
    ensures
        match r {
            Ok(Some(resp)) => reply_outcome(bytes@, device, feature, function) == Ok::<
                Option<(Seq<u8>, usize)>,
                HidppError,
            >(Some((resp.data@, resp.len))),
            Ok(None) => reply_outcome(bytes@, device, feature, function) == Ok::<
                Option<(Seq<u8>, usize)>,
                HidppError,
            >(None),
            Err(e) => reply_outcome(bytes@, device, feature, function) == Err::<
                Option<(Seq<u8>, usize)>,
                HidppError,
            >(e),
        },
        r matches Ok(Some(resp)) ==> answers(resp, device, feature, function),
{
    let response = HidppReport::from_bytes(bytes)?;
    let params = response.params();
    if response.is_error() && response.device_index() == device {
        let error_feature = byte_or_zero(params, 0);
        if error_feature == feature {
            let error_code = byte_or_zero(params, 1);
            return Err(HidppError::ProtocolError { function, error_code });
        }
    }
    if response.device_index() == device && response.feature_index() == feature
        && response.function_id() == function {
        return Ok(Some(response));
    }
    Ok(None)
}

/// The concatenated DPI list bytes of a run of getSensorDpiList pages.
pub open spec fn dpi_raw_bytes(pages: Seq<Seq<u8>>) -> Seq<u8>
    decreases pages.len(),
{
    if pages.len() == 0 {
        Seq::empty()
    } else {
        dpi_raw_bytes(pages.drop_last()) + dpi_page_bytes(pages.last())
    }
}

// ── Laws ──

/// 16-bit law: splitting a value into its high and low bytes (as the
/// requests do for feature IDs, DPI values and CIDs) and reading them back
/// big-endian gives the value.
pub proof fn lemma_be16_split(v: u16)
    ensures
        be16((v >> 8u16) as u8, (v & 0xFFu16) as u8) == v,
{
    assert(((v >> 8u16) as u8) as nat * 256 + ((v & 0xFFu16) as u8) as nat == v) by (bit_vector);
}

/// Echo law: a device reply that repeats a request's header (same device,
/// feature index and function) is taken as the answer, unless the feature
/// index is the error-message index.
pub proof fn lemma_echo_accepted(device: u8, feature: u8, function: u8, params: Seq<u8>)
    requires
        function < 16,
        feature != ERROR_MSG,
        params.len() <= 16,
    ensures
        reply_outcome(long_request(device, feature, function, params), device, feature, function)
            == Ok::<Option<(Seq<u8>, usize)>, HidppError>(
            Some((long_request(device, feature, function, params), LONG_REPORT_LEN)),
        ),
{
    let data = long_request(device, feature, function, params);
    lemma_header_roundtrip(function, SW_ID);
    assert(data[0] == LONG_REPORT_ID);
    assert(data.take(20) + zeros(0) =~= data);
}

/// A big-endian value splits back into its two bytes.
pub proof fn lemma_be16_bytes(hi: u8, lo: u8)
    ensures
        (be16(hi, lo) >> 8u16) as u8 == hi,
        (be16(hi, lo) & 0xFFu16) as u8 == lo,
{
    let v = be16(hi, lo);
    assert(v == (hi as u16) * 256 + (lo as u16));
    assert(((((hi as u16) * 256 + (lo as u16)) as u16) >> 8u16) as u8 == hi) by (bit_vector);
    assert(((((hi as u16) * 256 + (lo as u16)) as u16) & 0xFFu16) as u8 == lo) by (bit_vector);
}

/// Frame law: every request that feature access writes is a 20-byte long
/// report for the device, with the feature index, the function in the high
/// nibble of byte 3 and the software ID in its low nibble.
pub proof fn lemma_long_request_frame(device: u8, feature: u8, function: u8, params: Seq<u8>)
    requires
        function < 16,
        params.len() <= 16,
    ensures
        long_request(device, feature, function, params).len() == LONG_REPORT_LEN,
        long_request(device, feature, function, params)[0] == LONG_REPORT_ID,
        long_request(device, feature, function, params)[1] == device,
        long_request(device, feature, function, params)[2] == feature,
        long_request(device, feature, function, params)[3] >> 4u8 == function,
        long_request(device, feature, function, params)[3] & 0x0Fu8 == SW_ID,
        long_request(device, feature, function, params).subrange(4, 4 + params.len() as int) == params,
{
    lemma_header_roundtrip(function, SW_ID);
    assert(0x01u8 & 0x0Fu8 == 0x01u8) by (bit_vector);
    let f = long_request(device, feature, function, params);
    assert(f.subrange(4, 4 + params.len() as int) =~= params);
}

/// DPI law: the DPI bytes that `set_dpi` sends, read as a getSensorDpi
/// reply, give back the DPI as the current value.
pub proof fn lemma_set_dpi_read_back(dpi: u16)
    ensures
        dpi_pair_of(seq![0u8, (dpi >> 8u16) as u8, (dpi & 0xFFu16) as u8]).0 == dpi,
{
    lemma_be16_split(dpi);
    assert(be16(0, 0) == 0);
}

/// Remap law: the bytes that `set_reprog_control_mapping` sends, read as a
/// getControlMapping reply (CID, flags, target), give back the CID and the
/// target.
pub proof fn lemma_remap_read_back(cid: u16, remap_to: u16)
    ensures
        ({
            let p = seq![(cid >> 8u16) as u8, (cid & 0xFFu16) as u8, 0u8, (remap_to >> 8u16) as u8, (remap_to & 0xFFu16) as u8];
            be16(byte_at(p, 0), byte_at(p, 1)) == cid && be16(byte_at(p, 3), byte_at(p, 4)) == remap_to
        }),
{
    lemma_be16_split(cid);
    lemma_be16_split(remap_to);
}

/// Wheel mode law: the mode byte that `set_hires_wheel_mode` sends, read as
/// a getMode reply, gives back the hi-res and invert settings.
pub proof fn lemma_hires_mode_read_back(hi_res: bool, invert: bool, caps: Seq<u8>, ratchet: Seq<u8>)
    ensures
        hires_wheel_info(caps, seq![hires_mode_bits(hi_res, invert)], ratchet).hi_res == hi_res,
        hires_wheel_info(caps, seq![hires_mode_bits(hi_res, invert)], ratchet).invert == invert,
{
    assert((((if hi_res { 0x02u8 } else { 0u8 }) | (if invert { 0x04u8 } else { 0u8 })) as u8) & 0x02u8 != 0 == hi_res) by (bit_vector);
    assert((((if hi_res { 0x02u8 } else { 0u8 }) | (if invert { 0x04u8 } else { 0u8 })) as u8) & 0x04u8 != 0 == invert) by (bit_vector);
}

/// SmartShift law: the mode and threshold that `set_smart_shift` sends, read
/// as a SmartShift reply, give back the same settings.
pub proof fn lemma_smart_shift_read_back(mode: u8, threshold: u8, is_enhanced: bool)
    ensures
        smart_shift_info(seq![mode, threshold], is_enhanced) == (SmartShiftInfo {
            mode,
            threshold,
            is_enhanced,
        }),
{
}

/// The rank of a battery level, from Empty (0) to Full (4).
pub open spec fn level_rank(l: BatteryLevel) -> int {
    match l {
        BatteryLevel::Empty => 0,
        BatteryLevel::Critical => 1,
        BatteryLevel::Low => 2,
        BatteryLevel::Good => 3,
        BatteryLevel::Full => 4,
    }
}

/// Battery law: the coarse level of a BatteryStatus reply never falls as the
/// discharge percentage rises.
pub proof fn lemma_discharge_level_monotone(a: u8, b: u8)
    requires
        a <= b,
    ensures
        level_rank(level_from_discharge(a)) <= level_rank(level_from_discharge(b)),
{
}

/// DPI range law: the `k`-th value of a range entry is the start plus `k`
/// steps, and no value passes the range's last value.
pub proof fn lemma_dpi_range_values(v: int, step: int, last: int, k: int)
    requires
        step > 0,
        0 <= k < dpi_range(v, step, last).len(),
    ensures
        dpi_range(v, step, last)[k] == (v + k * step) as u16,
        v + k * step <= last,
    decreases last + step - v,
{
    if k > 0 {
        lemma_dpi_range_values(v + step, step, last, k - 1);
        assert(v + step + (k - 1) * step == v + k * step) by (nonlinear_arith);
    }
}

/// The getSensorDpiList bytes of a list of individual DPI values: each value
/// big-endian.
pub open spec fn dpi_values_bytes(vals: Seq<u16>) -> Seq<u8> {
    Seq::new(
        2 * vals.len(),
        |i: int|
            if i % 2 == 0 {
                (vals[i / 2] >> 8u16) as u8
            } else {
                (vals[i / 2] & 0xFFu16) as u8
            },
    )
}

/// A DPI value that the list encodes individually: nonzero, and without the
/// range marker in its top three bits.
pub open spec fn individual_dpi(v: u16) -> bool {
    v != 0 && v >> 13u16 != 7
}

/// DPI list law: individual DPI values followed by the 0x0000 terminator
/// decode to the same values, in order.
pub proof fn lemma_dpi_individual_values(vals: Seq<u16>)
    requires
        forall|k: int| 0 <= k < vals.len() ==> individual_dpi(#[trigger] vals[k]),
    ensures
        dpi_list_of(dpi_values_bytes(vals) + seq![0u8, 0u8]) == vals,
{
    lemma_dpi_individual_from(vals, 0);
    assert(vals.take(0) =~= Seq::<u16>::empty());
}

proof fn lemma_dpi_individual_from(vals: Seq<u16>, k: nat)
    requires
        k <= vals.len(),
        forall|j: int| 0 <= j < vals.len() ==> individual_dpi(#[trigger] vals[j]),
    ensures
        dpi_list_decode(dpi_values_bytes(vals) + seq![0u8, 0u8], 2 * k, vals.take(k as int)) == vals,
    decreases vals.len() - k,
{
    let raw = dpi_values_bytes(vals) + seq![0u8, 0u8];
    if k == vals.len() {
        assert(raw[2 * k as int] == 0u8);
        assert(raw[(2 * k + 1) as int] == 0u8);
        assert(be16(0, 0) == 0);
        assert(vals.take(k as int) =~= vals);
    } else {
        let v = vals[k as int];
        assert(raw[2 * k as int] == (v >> 8u16) as u8);
        assert(raw[(2 * k + 1) as int] == (v & 0xFFu16) as u8);
        lemma_be16_split(v);
        assert(individual_dpi(v));
        lemma_dpi_individual_from(vals, k + 1);
        assert(vals.take(k as int).push(v) =~= vals.take((k + 1) as int));
        assert(2 * k + 2 == 2 * (k + 1));
    }
}

// ── Exchanges of the feature methods ──

/// A lookup of `feature_id`, then, if it found the feature, one request to
/// `function` with `params` at the index found. `reply` is that request's
/// reply, or the lookup's error.
pub open spec fn feature_call(
    device: u8,
    feature_id: u16,
    function: u8,
    params: Seq<u8>,
    ev: Seq<TransportEvent>,
    reply: Reply,
) -> bool {
    exists|k: int|
        #![trigger ev.take(k)]
        0 <= k <= ev.len() && match lookup_result(device, feature_id, ev.take(k)) {
            Some(Ok(fi)) => call_result(device, (fi, function, params), ev.skip(k)) == Some(reply),
            Some(Err(e)) => k == ev.len() && reply == Err::<Seq<u8>, HidppError>(e),
            None => false,
        }
}

/// A DPI list result by its values.
pub open spec fn list_view(r: Result<Vec<u16>, HidppError>) -> Result<Seq<u16>, HidppError> {
    match r {
        Ok(list) => Ok(list@),
        Err(e) => Err(e),
    }
}

/// A setter's exchange: one feature call, whose success is the setter's.
pub open spec fn setter_exchange(
    device: u8,
    feature_id: u16,
    function: u8,
    params: Seq<u8>,
    ev: Seq<TransportEvent>,
    r: Result<(), HidppError>,
) -> bool {
    exists|reply: Reply|
        #[trigger] feature_call(device, feature_id, function, params, ev, reply) && r == match reply {
            Ok(_) => Ok::<(), HidppError>(()),
            Err(e) => Err(e),
        }
}

/// Whether a lookup reply found the feature.
pub open spec fn found(o: Reply, feature_id: u16) -> bool {
    lookup_outcome(o, feature_id) is Ok
}

/// The parameters of setSensorDpi for sensor 0.
pub open spec fn set_dpi_params(dpi: u16) -> Seq<u8> {
    seq![0u8, (dpi >> 8u16) as u8, (dpi & 0xFFu16) as u8]
}

/// The parameters of setRatchet.
pub open spec fn ratchet_params(ratchet: bool) -> Seq<u8> {
    seq![if ratchet { 1u8 } else { 0u8 }]
}

/// The parameters of setControlMapping.
pub open spec fn remap_params(cid: u16, remap_to: u16) -> Seq<u8> {
    seq![(cid >> 8u16) as u8, (cid & 0xFFu16) as u8, 0u8, (remap_to >> 8u16) as u8, (remap_to & 0xFFu16) as u8]
}

pub open spec fn unified_battery_exchange(device: u8, ev: Seq<TransportEvent>, r: Result<BatteryInfo, HidppError>) -> bool {
    exists|reply: Reply|
        #[trigger] feature_call(device, FEATURE_UNIFIED_BATTERY, 1, seq![], ev, reply) && r == match reply {
            Ok(p) => Ok::<BatteryInfo, HidppError>(unified_battery_info(p)),
            Err(e) => Err(e),
        }
}

pub open spec fn battery_status_exchange(device: u8, ev: Seq<TransportEvent>, r: Result<BatteryInfo, HidppError>) -> bool {
    exists|reply: Reply|
        #[trigger] feature_call(device, FEATURE_BATTERY_STATUS, 0, seq![], ev, reply) && r == match reply {
            Ok(p) => Ok::<BatteryInfo, HidppError>(battery_status_info(p)),
            Err(e) => Err(e),
        }
}

/// UnifiedBattery first; where its lookup or call fails with
/// `FeatureNotFound`, BatteryStatus; `None` where that fails so too.
pub open spec fn battery_exchange(device: u8, ev: Seq<TransportEvent>, r: Result<Option<BatteryInfo>, HidppError>) -> bool {
    exists|k: int, first: Result<BatteryInfo, HidppError>|
        #![trigger unified_battery_exchange(device, ev.take(k), first)]
        0 <= k <= ev.len() && unified_battery_exchange(device, ev.take(k), first) && match first {
            Ok(info) => k == ev.len() && r == Ok::<Option<BatteryInfo>, HidppError>(Some(info)),
            Err(HidppError::FeatureNotFound { .. }) => exists|second: Result<BatteryInfo, HidppError>|
                #[trigger] battery_status_exchange(device, ev.skip(k), second) && r == match second {
                    Ok(info) => Ok::<Option<BatteryInfo>, HidppError>(Some(info)),
                    Err(HidppError::FeatureNotFound { .. }) => Ok::<Option<BatteryInfo>, HidppError>(None),
                    Err(e) => Err(e),
                },
            Err(e) => k == ev.len() && r == Err::<Option<BatteryInfo>, HidppError>(e),
        }
}

pub open spec fn host_count_exchange(device: u8, ev: Seq<TransportEvent>, r: Result<u8, HidppError>) -> bool {
    exists|reply: Reply|
        #[trigger] feature_call(device, FEATURE_CHANGE_HOST, 1, seq![], ev, reply) && r == match reply {
            Ok(p) => Ok::<u8, HidppError>(byte_at(p, 0)),
            Err(e) => Err(e),
        }
}

pub open spec fn dpi_exchange(device: u8, ev: Seq<TransportEvent>, r: Result<(u16, u16), HidppError>) -> bool {
    exists|reply: Reply|
        #[trigger] feature_call(device, FEATURE_ADJUSTABLE_DPI, 2, seq![0u8], ev, reply) && r == match reply {
            Ok(p) => Ok::<(u16, u16), HidppError>(dpi_pair_of(p)),
            Err(e) => Err(e),
        }
}

/// getSensorDpiList pages, from page 0 on, until the collected bytes end in
/// the terminator or 16 pages were read.
pub open spec fn dpi_plan() -> Plan {
    |pages: Seq<Seq<u8>>|
        if pages.len() >= 16 || dpi_bytes_terminated(dpi_raw_bytes(pages)) {
            None
        } else {
            Some((1u8, seq![0u8, 0u8, pages.len() as u8]))
        }
}

pub open spec fn dpi_list_exchange(device: u8, ev: Seq<TransportEvent>, r: Result<Seq<u16>, HidppError>) -> bool {
    exists|res: Result<Seq<Seq<u8>>, HidppError>|
        #[trigger] session(device, FEATURE_ADJUSTABLE_DPI, dpi_plan(), ev, res) && r == match res {
            Ok(pages) => Ok::<Seq<u16>, HidppError>(dpi_list_of(dpi_raw_bytes(pages))),
            Err(e) => Err(e),
        }
}

/// The DPI list, then the current and default DPI.
pub open spec fn dpi_settings_exchange(device: u8, ev: Seq<TransportEvent>, r: Result<(Seq<u16>, u16, u16), HidppError>) -> bool {
    exists|k: int, list: Result<Seq<u16>, HidppError>|
        #![trigger dpi_list_exchange(device, ev.take(k), list)]
        0 <= k <= ev.len() && dpi_list_exchange(device, ev.take(k), list) && match list {
            Err(e) => k == ev.len() && r == Err::<(Seq<u16>, u16, u16), HidppError>(e),
            Ok(l) => exists|pair: Result<(u16, u16), HidppError>|
                #[trigger] dpi_exchange(device, ev.skip(k), pair) && r == match pair {
                    Ok(p) => Ok::<(Seq<u16>, u16, u16), HidppError>((l, p.0, p.1)),
                    Err(e) => Err(e),
                },
        }
}

/// DeviceFwVersion: the entity count, then getFwInfo for each entity.
pub open spec fn firmware_plan() -> Plan {
    |r: Seq<Seq<u8>>|
        if r.len() == 0 {
            Some((0u8, seq![]))
        } else if r.len() - 1 < byte_at(r[0], 0) {
            Some((1u8, seq![(r.len() - 1) as u8]))
        } else {
            None
        }
}

pub open spec fn firmware_exchange(device: u8, ev: Seq<TransportEvent>, r: Result<Vec<FirmwareInfo>, HidppError>) -> bool {
    exists|res: Result<Seq<Seq<u8>>, HidppError>|
        #[trigger] session(device, FEATURE_DEVICE_FW_VERSION, firmware_plan(), ev, res) && match res {
            Err(e) => r == Err::<Vec<FirmwareInfo>, HidppError>(e),
            Ok(rs) => r matches Ok(fws) && fws@.len() + 1 == rs.len() && fws@.len() == byte_at(rs[0], 0)
                && forall|k: int| 0 <= k < fws@.len() ==> firmware_info_of(#[trigger] fws@[k], rs[k + 1]),
        }
}

/// ReprogControlsV4: the control count, then for each control its info and
/// the mapping of the control ID that the info gives.
pub open spec fn reprog_plan() -> Plan {
    |r: Seq<Seq<u8>>|
        if r.len() == 0 {
            Some((0u8, seq![]))
        } else if (r.len() - 1) % 2 == 0 {
            if (r.len() - 1) / 2 < byte_at(r[0], 0) {
                Some((1u8, seq![((r.len() - 1) / 2) as u8]))
            } else {
                None
            }
        } else {
            Some((2u8, seq![byte_at(r.last(), 0), byte_at(r.last(), 1)]))
        }
}

pub open spec fn reprog_exchange(device: u8, ev: Seq<TransportEvent>, r: Result<Vec<ReprogControl>, HidppError>) -> bool {
    exists|res: Result<Seq<Seq<u8>>, HidppError>|
        #[trigger] session(device, FEATURE_REPROG_CONTROLS_V4, reprog_plan(), ev, res) && match res {
            Err(e) => r == Err::<Vec<ReprogControl>, HidppError>(e),
            Ok(rs) => r matches Ok(cs) && rs.len() == 1 + 2 * cs@.len() && cs@.len() == byte_at(rs[0], 0)
                && forall|k: int| 0 <= k < cs@.len() ==> reprog_control_of(#[trigger] cs@[k], rs[1 + 2 * k], rs[2 + 2 * k]),
        }
}

/// CryptoIdentifier: chunk 0, then, where it holds 16 bytes, chunk 1.
pub open spec fn crypto_plan() -> Plan {
    |r: Seq<Seq<u8>>|
        if r.len() == 0 {
            Some((0u8, seq![]))
        } else if r.len() == 1 && r[0].len() >= 16 {
            Some((1u8, seq![]))
        } else {
            None
        }
}

pub open spec fn crypto_exchange(device: u8, ev: Seq<TransportEvent>, r: Result<[u8; 32], HidppError>) -> bool {
    exists|res: Result<Seq<Seq<u8>>, HidppError>|
        #[trigger] session(device, FEATURE_CRYPTO_IDENTIFIER, crypto_plan(), ev, res) && match res {
            Err(e) => r == Err::<[u8; 32], HidppError>(e),
            Ok(rs) => if rs[0].len() < 16 {
                r == Err::<[u8; 32], HidppError>(HidppError::InvalidLength { expected: 16, got: rs[0].len() as usize })
            } else if rs[1].len() < 16 {
                r == Err::<[u8; 32], HidppError>(HidppError::InvalidLength { expected: 16, got: rs[1].len() as usize })
            } else {
                r matches Ok(id) && id@ == rs[0].take(16) + rs[1].take(16)
            },
        }
}

/// HiResWheel: capabilities, mode, ratchet.
pub open spec fn hires_plan() -> Plan {
    |r: Seq<Seq<u8>>|
        if r.len() == 0 {
            Some((0u8, seq![]))
        } else if r.len() == 1 {
            Some((1u8, seq![]))
        } else if r.len() == 2 {
            Some((3u8, seq![]))
        } else {
            None
        }
}

pub open spec fn hires_exchange(device: u8, ev: Seq<TransportEvent>, r: Result<HiResWheelInfo, HidppError>) -> bool {
    exists|res: Result<Seq<Seq<u8>>, HidppError>|
        #[trigger] session(device, FEATURE_HIRES_WHEEL, hires_plan(), ev, res) && r == match res {
            Ok(rs) => Ok::<HiResWheelInfo, HidppError>(hires_wheel_info(rs[0], rs[1], rs[2])),
            Err(e) => Err(e),
        }
}

/// The enhanced SmartShift read where its lookup succeeds; the standard one
/// where that lookup fails with `FeatureNotFound`.
pub open spec fn smart_shift_exchange(device: u8, ev: Seq<TransportEvent>, r: Result<SmartShiftInfo, HidppError>) -> bool {
    exists|k: int|
        #![trigger ev.take(k)]
        0 <= k <= ev.len() && match lookup_result(device, FEATURE_SMART_SHIFT_ENHANCED, ev.take(k)) {
            Some(Ok(fi)) => call_result(device, (fi, 1u8, seq![]), ev.skip(k)) matches Some(reply) && r == match reply {
                Ok(p) => Ok::<SmartShiftInfo, HidppError>(smart_shift_info(p, true)),
                Err(e) => Err(e),
            },
            Some(Err(HidppError::FeatureNotFound { .. })) => exists|reply: Reply|
                #![trigger feature_call(device, FEATURE_SMART_SHIFT, 0, seq![], ev.skip(k), reply)]
                feature_call(device, FEATURE_SMART_SHIFT, 0, seq![], ev.skip(k), reply) && r == match reply {
                    Ok(p) => Ok::<SmartShiftInfo, HidppError>(smart_shift_info(p, false)),
                    Err(e) => Err(e),
                },
            Some(Err(e)) => k == ev.len() && r == Err::<SmartShiftInfo, HidppError>(e),
            None => false,
        }
}

/// The enhanced SmartShift write where its lookup succeeds; the standard one
/// where that lookup fails with `FeatureNotFound`.
pub open spec fn set_smart_shift_exchange(device: u8, mode: u8, threshold: u8, ev: Seq<TransportEvent>, r: Result<(), HidppError>) -> bool {
    exists|k: int|
        #![trigger ev.take(k)]
        0 <= k <= ev.len() && match lookup_result(device, FEATURE_SMART_SHIFT_ENHANCED, ev.take(k)) {
            Some(Ok(fi)) => call_result(device, (fi, 2u8, seq![mode, threshold]), ev.skip(k)) matches Some(reply) && r == match reply {
                Ok(_) => Ok::<(), HidppError>(()),
                Err(e) => Err(e),
            },
            Some(Err(HidppError::FeatureNotFound { .. })) => setter_exchange(device, FEATURE_SMART_SHIFT, 1, seq![mode, threshold], ev.skip(k), r),
            Some(Err(e)) => k == ev.len() && r == Err::<(), HidppError>(e),
            None => false,
        }
}

/// A probe: `b` is whether the lookup of `feature_id` found it.
pub open spec fn probe_exchange(device: u8, feature_id: u16, ev: Seq<TransportEvent>, b: bool) -> bool {
    call_result(device, lookup_call(feature_id), ev) matches Some(o) && b == found(o, feature_id)
}

/// The probes of `discover_capabilities`, in order, and the flags they give.
/// The enhanced SmartShift ID is probed for `has_smart_shift` only where the
/// standard one is absent, and again for `has_smart_shift_enhanced`.
pub open spec fn capability_probes(calls: Seq<Call>, outs: Seq<Reply>, caps: DeviceCapabilities) -> bool {
    &&& outs.len() == calls.len()
    &&& calls.len() >= 3
    &&& calls[0] == lookup_call(FEATURE_DEVICE_FW_VERSION)
    &&& calls[1] == lookup_call(FEATURE_ADJUSTABLE_DPI)
    &&& calls[2] == lookup_call(FEATURE_SMART_SHIFT)
    &&& caps.has_firmware_version == found(outs[0], FEATURE_DEVICE_FW_VERSION)
    &&& caps.has_dpi == found(outs[1], FEATURE_ADJUSTABLE_DPI)
    &&& if found(outs[2], FEATURE_SMART_SHIFT) {
        &&& calls.len() == 6
        &&& calls[3] == lookup_call(FEATURE_SMART_SHIFT_ENHANCED)
        &&& calls[4] == lookup_call(FEATURE_HIRES_WHEEL)
        &&& calls[5] == lookup_call(FEATURE_REPROG_CONTROLS_V4)
        &&& caps.has_smart_shift
        &&& caps.has_smart_shift_enhanced == found(outs[3], FEATURE_SMART_SHIFT_ENHANCED)
        &&& caps.has_hires_wheel == found(outs[4], FEATURE_HIRES_WHEEL)
        &&& caps.has_reprog_controls == found(outs[5], FEATURE_REPROG_CONTROLS_V4)
    } else {
        &&& calls.len() == 7
        &&& calls[3] == lookup_call(FEATURE_SMART_SHIFT_ENHANCED)
        &&& calls[4] == lookup_call(FEATURE_SMART_SHIFT_ENHANCED)
        &&& calls[5] == lookup_call(FEATURE_HIRES_WHEEL)
        &&& calls[6] == lookup_call(FEATURE_REPROG_CONTROLS_V4)
        &&& caps.has_smart_shift == found(outs[3], FEATURE_SMART_SHIFT_ENHANCED)
        &&& caps.has_smart_shift_enhanced == found(outs[4], FEATURE_SMART_SHIFT_ENHANCED)
        &&& caps.has_hires_wheel == found(outs[5], FEATURE_HIRES_WHEEL)
        &&& caps.has_reprog_controls == found(outs[6], FEATURE_REPROG_CONTROLS_V4)
    }
}

pub open spec fn capabilities_exchange(device: u8, ev: Seq<TransportEvent>, caps: DeviceCapabilities) -> bool {
    exists|calls: Seq<Call>, outs: Seq<Reply>|
        #![trigger calls_events(device, calls, outs, ev)]
        calls_events(device, calls, outs, ev) && capability_probes(calls, outs, caps)
}

// ── Exchange lemmas ──

/// A lookup followed by a request at the index found is a feature call.
pub proof fn lemma_feature_call<T: HidTransport>(
    start: FeatureAccess<T>,
    mid: FeatureAccess<T>,
    end: FeatureAccess<T>,
    feature_id: u16,
    call: Call,
    o: Reply,
)
    requires
        grew(start, mid),
        grew(mid, end),
        lookup_result(start.device(), feature_id, added(start, mid)) == Some(Ok::<u8, HidppError>(call.0)),
        call_result(start.device(), call, added(mid, end)) == Some(o),
    ensures
        grew(start, end),
        feature_call(start.device(), feature_id, call.1, call.2, added(start, end), o),
{
    lemma_grew_split(start, mid, end);
    let k = added(start, mid).len() as int;
    assert(added(start, end).take(k) == added(start, mid));
}

/// Failed-lookup law: where the lookup that opens a feature call fails, the
/// call is over: its reply is the lookup's error, and the lookup's frame is the
/// only one written.
pub proof fn lemma_failed_lookup_ends_call(
    device: u8,
    feature_id: u16,
    function: u8,
    params: Seq<u8>,
    ev: Seq<TransportEvent>,
    reply: Reply,
    k: int,
    e: HidppError,
)
    requires
        feature_call(device, feature_id, function, params, ev, reply),
        0 <= k <= ev.len(),
        lookup_result(device, feature_id, ev.take(k)) == Some(Err::<u8, HidppError>(e)),
    ensures
        k == ev.len(),
        reply == Err::<Seq<u8>, HidppError>(e),
        ev[0] matches TransportEvent::Write(w, _) && w == long_request(device, 0, 0, lookup_call(feature_id).2),
        forall|i: int| 1 <= i < ev.len() ==> #[trigger] ev[i] is Read,
{
    let j = choose|j: int|
        #![trigger ev.take(j)]
        0 <= j <= ev.len() && match lookup_result(device, feature_id, ev.take(j)) {
            Some(Ok(fi)) => call_result(device, (fi, function, params), ev.skip(j)) == Some(reply),
            Some(Err(x)) => j == ev.len() && reply == Err::<Seq<u8>, HidppError>(x),
            None => false,
        };
    let frame = long_request(device, 0, 0, lookup_call(feature_id).2);
    let t = request_timeout();
    if j < k {
        assert(ev.take(k) =~= ev.take(j) + ev.subrange(j, k));
        lemma_request_ends_once(frame, device, 0, 0, t, ev.take(j), ev.subrange(j, k));
    } else if k < j {
        assert(ev.take(j) =~= ev.take(k) + ev.subrange(k, j));
        lemma_request_ends_once(frame, device, 0, 0, t, ev.take(k), ev.subrange(k, j));
    }
    assert(j == k);
    assert(ev.take(k) =~= ev);
    lemma_request_writes_once(frame, device, 0, 0, t, ev);
    assert forall|i: int| 1 <= i < ev.len() implies #[trigger] ev[i] is Read by {
        assert(read_with(ev[i], t));
    }
}

/// Battery law: `get_battery` never ends in `FeatureNotFound`; an absent
/// feature is a fallback or `None`.
pub proof fn lemma_battery_never_not_found(device: u8, ev: Seq<TransportEvent>, r: Result<Option<BatteryInfo>, HidppError>)
    requires
        battery_exchange(device, ev, r),
    ensures
        !(r matches Err(HidppError::FeatureNotFound { .. })),
{
}

/// A failed lookup is a feature call that fails with its error.
pub proof fn lemma_call_lookup_failed(device: u8, feature_id: u16, function: u8, params: Seq<u8>, ev: Seq<TransportEvent>)
    requires
        lookup_result(device, feature_id, ev) matches Some(Err(_)),
    ensures
        feature_call(device, feature_id, function, params, ev, Err(lookup_result(device, feature_id, ev)->Some_0->Err_0)),
{
    assert(ev.take(ev.len() as int) =~= ev);
}

/// A probe's lookup extends a run of lookups.
pub proof fn lemma_probe_push<T: HidTransport>(
    start: FeatureAccess<T>,
    before: FeatureAccess<T>,
    after: FeatureAccess<T>,
    calls: Seq<Call>,
    outs: Seq<Reply>,
    feature_id: u16,
    b: bool,
) -> (o: Reply)
    requires
        grew(start, before),
        grew(before, after),
        calls_events(start.device(), calls, outs, added(start, before)),
        probe_exchange(start.device(), feature_id, added(before, after), b),
    ensures
        grew(start, after),
        calls_events(start.device(), calls.push(lookup_call(feature_id)), outs.push(o), added(start, after)),
        b == found(o, feature_id),
{
    lemma_grew_chain(start, before, after);
    let o = call_result(start.device(), lookup_call(feature_id), added(before, after))->Some_0;
    lemma_calls_push(start.device(), calls, outs, added(start, before), lookup_call(feature_id), o, added(before, after));
    o
}

impl<T: HidTransport> FeatureAccess<T> {
    /// Send a request and wait for the matching response.
    /// Skips non-matching reports (notifications, other responses).
    fn request(&mut self, report: &HidppReport, timeout_ms: i32) -> (r: Result<HidppReport, HidppError>)
        requires
            report.len <= LONG_REPORT_LEN,
            device_frame(old(self).device(), report.wire_bytes()),
        ensures
            grew(*old(self), *final(self)),
            request_result(
                report.wire_bytes(),
                old(self).device(),
                report.feature_index_of(),
                report.function_id_of(),
                timeout_ms,
                added(*old(self), *final(self)),
            ) == Some(reply_view(r)),
            r matches Ok(resp) ==> answers(
                resp,
                old(self).device(),
                report.feature_index_of(),
                report.function_id_of(),
            ),
    {
        let ghost start = *self;
        let ghost device = self.device();
        let ghost feature = report.feature_index_of();
        let ghost function = report.function_id_of();
        let written = self.send(report.as_bytes());
        let ghost wrote = TransportEvent::Write(report.wire_bytes(), written);
        match written {
            Err(e) => {
                return Err(e);
            },
            Ok(_) => {},
        }
        let expected_feature = report.feature_index();
        let expected_function = report.function_id();
        let mut buf = [0u8; 64];
        let mut attempt: u32 = 0;
        let ghost mut reads: Seq<TransportEvent> = Seq::empty();
        proof {
            assert(added(start, *self) =~= seq![wrote] + reads);
        }
        while attempt < 10
            invariant
                buf@.len() == 64,
                expected_feature == feature,
                expected_function == function,
                feature == report.feature_index_of(),
                function == report.function_id_of(),
                device == start.device(),
                attempt <= 10,
                reads.len() == attempt,
                grew(start, *self),
                start == *old(self),
                wrote matches TransportEvent::Write(w, Ok(_)) && w == report.wire_bytes(),
                added(start, *self) == seq![wrote] + reads,
                forall|k: int| 0 <= k < reads.len() ==> skipped(#[trigger] reads[k], device, feature, function, timeout_ms),
            decreases 10 - attempt,
        {
            let ghost before = *self;
            let got = self.receive(&mut buf, timeout_ms);
            let ghost event = read_event(timeout_ms, 64, got, buf@);
            proof {
                lemma_grew_chain(start, before, *self);
                assert(seq![wrote] + reads.push(event) =~= (seq![wrote] + reads) + seq![event]);
                reads = reads.push(event);
                assert((seq![wrote] + reads).drop_first() =~= reads);
                assert(reads.last() == event);
                assert forall|k: int| 0 <= k < reads.len() - 1 implies skipped(#[trigger] reads[k], device, feature, function, timeout_ms) by {
                    assert(reads[k] == reads.drop_last()[k]);
                }
            }
            let n = match got {
                Ok(n) => n,
                Err(e) => {
                    proof {
                        lemma_request_ends(report.wire_bytes(), device, feature, function, timeout_ms, wrote, reads, Err(e));
                    }
                    return Err(e);
                },
            };
            if n == 0 {
                proof {
                    assert(buf@.take(0) =~= Seq::<u8>::empty());
                    lemma_request_ends(report.wire_bytes(), device, feature, function, timeout_ms, wrote, reads, Err(HidppError::Timeout));
                }
                return Err(HidppError::Timeout);
            }
            let reply = vstd::slice::slice_subrange(buf.as_slice(), 0, n);
            proof {
                assert(reply@ =~= buf@.take(n as int));
            }
            match classify_reply(reply, self.device_index(), expected_feature, expected_function) {
                Err(e) => {
                    proof {
                        lemma_request_ends(report.wire_bytes(), device, feature, function, timeout_ms, wrote, reads, Err(e));
                    }
                    return Err(e);
                },
                Ok(Some(resp)) => {
                    proof {
                        lemma_request_ends(report.wire_bytes(), device, feature, function, timeout_ms, wrote, reads, Ok((resp.data@, resp.len)));
                    }
                    return Ok(resp);
                },
                Ok(None) => {},
            }
            attempt = attempt + 1;
        }
        Err(HidppError::Timeout)
    }

    /// Makes one long request, built as `call`, and waits for its answer.
    fn call_with(&mut self, report: &HidppReport, Ghost(call): Ghost<Call>) -> (r: Result<HidppReport, HidppError>)
        requires
            report.len == LONG_REPORT_LEN,
            report.data@ == long_request(old(self).device(), call.0, call.1, call.2),
            call.1 < 16,
            call.2.len() <= 16,
        ensures
            grew(*old(self), *final(self)),
            call_result(old(self).device(), call, added(*old(self), *final(self))) == Some(params_view(r)),
            r matches Ok(resp) ==> resp.wf(),
    {
        proof {
            lemma_header_roundtrip(call.1, SW_ID);
            lemma_long_request_frame(old(self).device(), call.0, call.1, call.2);
            assert(report.wire_bytes() =~= report.data@);
            assert(report.data@[2] == call.0);
            assert(report.data@[3] == header_byte(call.1, SW_ID));
        }
        self.request(report, 2000)
    }

    /// Makes one request of a session, recording it with the session's calls.
    fn session_call(
        &mut self,
        report: &HidppReport,
        Ghost(call): Ghost<Call>,
        Ghost(start): Ghost<FeatureAccess<T>>,
        Ghost(calls): Ghost<Seq<Call>>,
        Ghost(outs): Ghost<Seq<Reply>>,
    ) -> (r: Result<HidppReport, HidppError>)
        requires
            grew(start, *old(self)),
            calls_events(start.device(), calls, outs, added(start, *old(self))),
            report.len == LONG_REPORT_LEN,
            report.data@ == long_request(start.device(), call.0, call.1, call.2),
            call.1 < 16,
            call.2.len() <= 16,
        ensures
            grew(start, *final(self)),
            calls_events(start.device(), calls.push(call), outs.push(params_view(r)), added(start, *final(self))),
            r matches Ok(resp) ==> resp.wf(),
    {
        let ghost before = *self;
        let r = self.call_with(report, Ghost(call));
        proof {
            lemma_grew_chain(start, before, *self);
            lemma_calls_push(
                start.device(),
                calls,
                outs,
                added(start, before),
                call,
                params_view(r),
                added(before, *self),
            );
        }
        r
    }

    /// IRoot.GetFeatureIndex (feature 0x0000, function 0)
    /// Returns the feature index for the given feature ID.
    pub fn get_feature_index(&mut self, feature_id: u16) -> (r: Result<u8, HidppError>)
        ensures
            grew(*old(self), *final(self)),
            lookup_result(old(self).device(), feature_id, added(*old(self), *final(self))) == Some(r),
            r matches Ok(index) ==> index != 0,
    {
        let report = feature_index_request(self.device_index(), feature_id);
        let response = match self.call_with(&report, Ghost(lookup_call(feature_id))) {
            Ok(resp) => resp,
            Err(e) => {
                return Err(e);
            },
        };
        feature_index_from_params(response.params(), feature_id)
    }

    /// Looks up a feature and makes one request to it.
    fn feature_request(&mut self, feature_id: u16, function: u8, params: &[u8]) -> (r: Result<HidppReport, HidppError>)
        requires
            function < 16,
            params@.len() <= 16,
        ensures
            grew(*old(self), *final(self)),
            feature_call(old(self).device(), feature_id, function, params@, added(*old(self), *final(self)), params_view(r)),
            r matches Ok(resp) ==> resp.wf(),
    {
        let ghost start = *self;
        let feature_index = match self.get_feature_index(feature_id) {
            Ok(fi) => fi,
            Err(e) => {
                proof {
                    lemma_call_lookup_failed(start.device(), feature_id, function, params@, added(start, *self));
                }
                return Err(e);
            },
        };
        let ghost mid = *self;
        let report = long_request_with(self.device_index(), feature_index, function, params);
        let response = self.call_with(&report, Ghost((feature_index, function, params@)));
        proof {
            lemma_feature_call(start, mid, *self, feature_id, (feature_index, function, params@), params_view(response));
        }
        response
    }

    /// CryptoIdentifier.GetIdentifier (feature 0x0021, functions 0 and 1).
    ///
    /// Flow uses this stable 32-byte device value when deriving the shared
    /// discovery key. Logitech exposes it as two 16-byte HID++ responses.
    pub fn get_crypto_identifier(&mut self) -> (r: Result<[u8; 32], HidppError>)
        ensures
            grew(*old(self), *final(self)),
            crypto_exchange(old(self).device(), added(*old(self), *final(self)), r),
    {
        let ghost start = *self;
        let ghost d = self.device();
        let feature_index = match self.get_feature_index(FEATURE_CRYPTO_IDENTIFIER) {
            Ok(fi) => fi,
            Err(e) => {
                proof {
                    lemma_session_lookup_failed(d, FEATURE_CRYPTO_IDENTIFIER, crypto_plan(), added(start, *self));
                }
                return Err(e);
            },
        };
        let ghost mut calls: Seq<Call> = Seq::empty();
        let ghost mut outs: Seq<Reply> = Seq::empty();
        proof {
            let (c, o) = lemma_session_start(d, FEATURE_CRYPTO_IDENTIFIER, crypto_plan(), added(start, *self));
            calls = c;
            outs = o;
        }
        let mut identifier = [0u8; 32];

        let none: [u8; 0] = [];
        proof {
            assert(none@ =~= Seq::<u8>::empty());
        }
        let report = long_request_with(self.device_index(), feature_index, 0, &none);
        let ghost c0 = (feature_index, 0u8, none@);
        let got = self.session_call(&report, Ghost(c0), Ghost(start), Ghost(calls), Ghost(outs));
        let ghost o0 = params_view(got);
        let first = match got {
            Ok(resp) => resp,
            Err(e) => {
                proof {
                    lemma_session_failed(d, FEATURE_CRYPTO_IDENTIFIER, crypto_plan(), feature_index, calls, outs, c0, e, added(start, *self));
                }
                return Err(e);
            },
        };
        proof {
            lemma_session_step(FEATURE_CRYPTO_IDENTIFIER, crypto_plan(), feature_index, calls, outs, c0, first.param_bytes());
            calls = calls.push(c0);
            outs = outs.push(o0);
        }
        let params = first.params();
        if params.len() < 16 {
            proof {
                lemma_session_done(d, FEATURE_CRYPTO_IDENTIFIER, crypto_plan(), feature_index, calls, outs, added(start, *self));
            }
            return Err(HidppError::InvalidLength { expected: 16, got: params.len() });
        }
        let mut i: usize = 0;
        while i < 16
            invariant
                i <= 16,
                params@.len() >= 16,
                identifier@.len() == 32,
                forall|k: int| 0 <= k < i ==> identifier@[k] == params@[k],
            decreases 16 - i,
        {
            identifier[i] = params[i];
            i = i + 1;
        }

        let report = long_request_with(self.device_index(), feature_index, 1, &none);
        let ghost c1 = (feature_index, 1u8, none@);
        let got = self.session_call(&report, Ghost(c1), Ghost(start), Ghost(calls), Ghost(outs));
        let ghost o1 = params_view(got);
        let second = match got {
            Ok(resp) => resp,
            Err(e) => {
                proof {
                    lemma_session_failed(d, FEATURE_CRYPTO_IDENTIFIER, crypto_plan(), feature_index, calls, outs, c1, e, added(start, *self));
                }
                return Err(e);
            },
        };
        proof {
            lemma_session_step(FEATURE_CRYPTO_IDENTIFIER, crypto_plan(), feature_index, calls, outs, c1, second.param_bytes());
            calls = calls.push(c1);
            outs = outs.push(o1);
            lemma_session_done(d, FEATURE_CRYPTO_IDENTIFIER, crypto_plan(), feature_index, calls, outs, added(start, *self));
        }
        let params2 = second.params();
        if params2.len() < 16 {
            return Err(HidppError::InvalidLength { expected: 16, got: params2.len() });
        }
        let mut j: usize = 0;
        while j < 16
            invariant
                j <= 16,
                params@.len() >= 16,
                params2@.len() >= 16,
                identifier@.len() == 32,
                forall|k: int| 0 <= k < 16 ==> identifier@[k] == params@[k],
                forall|k: int| 0 <= k < j ==> identifier@[16 + k] == params2@[k],
            decreases 16 - j,
        {
            identifier[16 + j] = params2[j];
            j = j + 1;
        }
        assert(identifier@ =~= params@.take(16) + params2@.take(16));
        Ok(identifier)
    }

    /// ChangeHost.SetCurrentHost (feature 0x1814, function 0)
    /// Switches the device to the specified host channel (0-based: 0, 1, 2).
    pub fn change_host(&mut self, host_index: u8) -> (r: Result<(), HidppError>)
        ensures
            grew(*old(self), *final(self)),
            setter_exchange(old(self).device(), FEATURE_CHANGE_HOST, 0, seq![host_index], added(*old(self), *final(self)), r),
    {
        let p = [host_index];
        proof {
            assert(p@ =~= seq![host_index]);
        }
        match self.feature_request(FEATURE_CHANGE_HOST, 0x00, &p) {
            Ok(_) => Ok(()),
            Err(e) => Err(e),
        }
    }

    /// UnifiedBattery.GetStatus (feature 0x1004, function 1)
    /// Returns battery info from modern Logitech devices.
    pub fn get_unified_battery(&mut self) -> (r: Result<BatteryInfo, HidppError>)
        ensures
            grew(*old(self), *final(self)),
            unified_battery_exchange(old(self).device(), added(*old(self), *final(self)), r),
    {
        let none: [u8; 0] = [];
        proof {
            assert(none@ =~= Seq::<u8>::empty());
        }
        match self.feature_request(FEATURE_UNIFIED_BATTERY, 0x01, &none) {
            Ok(response) => Ok(unified_battery_from_params(response.params())),
            Err(e) => Err(e),
        }
    }

    /// BatteryStatus.GetBatteryLevelStatus (feature 0x1000, function 0)
    /// Fallback for older devices that don't support UnifiedBattery.
    pub fn get_battery_status(&mut self) -> (r: Result<BatteryInfo, HidppError>)
        ensures
            grew(*old(self), *final(self)),
            battery_status_exchange(old(self).device(), added(*old(self), *final(self)), r),
    {
        let none: [u8; 0] = [];
        proof {
            assert(none@ =~= Seq::<u8>::empty());
        }
        match self.feature_request(FEATURE_BATTERY_STATUS, 0x00, &none) {
            Ok(response) => Ok(battery_status_from_params(response.params())),
            Err(e) => Err(e),
        }
    }

    /// Try UnifiedBattery first, fall back to BatteryStatus.
    /// Returns Ok(None) if neither feature is supported.
    pub fn get_battery(&mut self) -> (r: Result<Option<BatteryInfo>, HidppError>)
        ensures
            grew(*old(self), *final(self)),
            battery_exchange(old(self).device(), added(*old(self), *final(self)), r),
    {
        let ghost start = *self;
        let first = self.get_unified_battery();
        let ghost mid = *self;
        let ghost r1 = first;
        proof {
            lemma_grew_refl(mid);
            lemma_grew_split(start, mid, mid);
        }
        match first {
            Ok(info) => {
                return Ok(Some(info));
            },
            Err(HidppError::FeatureNotFound { .. }) => {},
            Err(e) => {
                return Err(e);
            },
        }
        let second = self.get_battery_status();
        proof {
            lemma_grew_split(start, mid, *self);
            assert(unified_battery_exchange(start.device(), added(start, *self).take(added(start, mid).len() as int), r1));
        }
        match second {
            Ok(info) => Ok(Some(info)),
            Err(HidppError::FeatureNotFound { .. }) => Ok(None),
            Err(e) => Err(e),
        }
    }

    /// ChangeHost.GetHostCount (feature 0x1814, function 1)
    /// Returns the number of hosts the device supports.
    pub fn get_host_count(&mut self) -> (r: Result<u8, HidppError>)
        ensures
            grew(*old(self), *final(self)),
            host_count_exchange(old(self).device(), added(*old(self), *final(self)), r),
    {
        let none: [u8; 0] = [];
        proof {
            assert(none@ =~= Seq::<u8>::empty());
        }
        match self.feature_request(FEATURE_CHANGE_HOST, 0x01, &none) {
            Ok(response) => Ok(byte_or_zero(response.params(), 0)),
            Err(e) => Err(e),
        }
    }

    /// DeviceFwVersion.getEntityCount (feature 0x0003, function 0)
    /// then DeviceFwVersion.getFwInfo (function 1) for each entity.
    /// Returns firmware info for all entities (main fw, bootloader, hardware).
    pub fn get_firmware_version(&mut self) -> (r: Result<Vec<FirmwareInfo>, HidppError>)
        ensures
            grew(*old(self), *final(self)),
            firmware_exchange(old(self).device(), added(*old(self), *final(self)), r),
    {
        let ghost start = *self;
        let ghost d = self.device();
        let feature_index = match self.get_feature_index(FEATURE_DEVICE_FW_VERSION) {
            Ok(fi) => fi,
            Err(e) => {
                proof {
                    lemma_session_lookup_failed(d, FEATURE_DEVICE_FW_VERSION, firmware_plan(), added(start, *self));
                }
                return Err(e);
            },
        };
        let ghost mut calls: Seq<Call> = Seq::empty();
        let ghost mut outs: Seq<Reply> = Seq::empty();
        proof {
            let (c, o) = lemma_session_start(d, FEATURE_DEVICE_FW_VERSION, firmware_plan(), added(start, *self));
            calls = c;
            outs = o;
        }
        let none: [u8; 0] = [];
        proof {
            assert(none@ =~= Seq::<u8>::empty());
        }
        let report = long_request_with(self.device_index(), feature_index, 0x00, &none);
        let ghost c0 = (feature_index, 0u8, none@);
        let got = self.session_call(&report, Ghost(c0), Ghost(start), Ghost(calls), Ghost(outs));
        let ghost o0 = params_view(got);
        let response = match got {
            Ok(resp) => resp,
            Err(e) => {
                proof {
                    lemma_session_failed(d, FEATURE_DEVICE_FW_VERSION, firmware_plan(), feature_index, calls, outs, c0, e, added(start, *self));
                }
                return Err(e);
            },
        };
        proof {
            lemma_session_step(FEATURE_DEVICE_FW_VERSION, firmware_plan(), feature_index, calls, outs, c0, response.param_bytes());
            calls = calls.push(c0);
            outs = outs.push(o0);
        }
        let count = byte_or_zero(response.params(), 0);

        let mut firmware: Vec<FirmwareInfo> = Vec::new();
        let mut index: u8 = 0;
        while index < count
            invariant
                index <= count,
                firmware@.len() == index,
                start == *old(self),
                d == start.device(),
                grew(start, *self),
                calls_events(d, calls, outs, added(start, *self)),
                session_prefix(FEATURE_DEVICE_FW_VERSION, firmware_plan(), feature_index, calls, outs),
                session_replies(outs).len() == 1 + index,
                byte_at(session_replies(outs)[0], 0) == count,
                forall|k: int| 0 <= k < index ==> firmware_info_of(#[trigger] firmware@[k], session_replies(outs)[k + 1]),
            decreases count - index,
        {
            let p = [index];
            proof {
                assert(p@ =~= seq![index]);
            }
            let report = long_request_with(self.device_index(), feature_index, 0x01, &p);
            let ghost c = (feature_index, 1u8, p@);
            let got = self.session_call(&report, Ghost(c), Ghost(start), Ghost(calls), Ghost(outs));
            let ghost o = params_view(got);
            let response = match got {
                Ok(resp) => resp,
                Err(e) => {
                    proof {
                        lemma_session_failed(d, FEATURE_DEVICE_FW_VERSION, firmware_plan(), feature_index, calls, outs, c, e, added(start, *self));
                    }
                    return Err(e);
                },
            };
            proof {
                lemma_session_step(FEATURE_DEVICE_FW_VERSION, firmware_plan(), feature_index, calls, outs, c, response.param_bytes());
                calls = calls.push(c);
                outs = outs.push(o);
            }
            let fw = firmware_info_from_params(response.params());
            firmware.push(fw);
            index = index + 1;
        }
        proof {
            lemma_session_done(d, FEATURE_DEVICE_FW_VERSION, firmware_plan(), feature_index, calls, outs, added(start, *self));
        }
        Ok(firmware)
    }

    // ── AdjustableDPI (0x2201) ──

    /// Reads the list of DPI values supported by the device sensor.
    /// Handles both individual values and range-encoded entries.
    pub fn get_dpi_list(&mut self) -> (r: Result<Vec<u16>, HidppError>)
        ensures
            grew(*old(self), *final(self)),
            dpi_list_exchange(old(self).device(), added(*old(self), *final(self)), list_view(r)),
    {
        let ghost start = *self;
        let ghost d = self.device();
        let feature_index = match self.get_feature_index(FEATURE_ADJUSTABLE_DPI) {
            Ok(fi) => fi,
            Err(e) => {
                proof {
                    lemma_session_lookup_failed(d, FEATURE_ADJUSTABLE_DPI, dpi_plan(), added(start, *self));
                }
                return Err(e);
            },
        };
        let ghost mut calls: Seq<Call> = Seq::empty();
        let ghost mut outs: Seq<Reply> = Seq::empty();
        proof {
            let (c, o) = lemma_session_start(d, FEATURE_ADJUSTABLE_DPI, dpi_plan(), added(start, *self));
            calls = c;
            outs = o;
        }

        let mut raw_bytes: Vec<u8> = Vec::new();
        let mut page: u8 = 0;
        while page < 0x10
            invariant_except_break
                !dpi_bytes_terminated(raw_bytes@),
            invariant
                page <= 0x10,
                start == *old(self),
                d == start.device(),
                grew(start, *self),
                calls_events(d, calls, outs, added(start, *self)),
                session_prefix(FEATURE_ADJUSTABLE_DPI, dpi_plan(), feature_index, calls, outs),
                session_replies(outs).len() == page,
                raw_bytes@ == dpi_raw_bytes(session_replies(outs)),
            ensures
                page >= 0x10 || dpi_bytes_terminated(raw_bytes@),
                start == *old(self),
                d == start.device(),
                grew(start, *self),
                calls_events(d, calls, outs, added(start, *self)),
                session_prefix(FEATURE_ADJUSTABLE_DPI, dpi_plan(), feature_index, calls, outs),
                session_replies(outs).len() == page,
                raw_bytes@ == dpi_raw_bytes(session_replies(outs)),
            decreases 0x10 - page,
        {
            // Function 1: getSensorDpiList(sensor=0, direction=0, page)
            let p = [0x00, 0x00, page];
            proof {
                assert(p@ =~= seq![0u8, 0u8, page]);
            }
            let report = long_request_with(self.device_index(), feature_index, 0x01, &p);
            let ghost c = (feature_index, 1u8, p@);
            let got = self.session_call(&report, Ghost(c), Ghost(start), Ghost(calls), Ghost(outs));
            let ghost o = params_view(got);
            let response = match got {
                Ok(resp) => resp,
                Err(e) => {
                    proof {
                        lemma_session_failed(d, FEATURE_ADJUSTABLE_DPI, dpi_plan(), feature_index, calls, outs, c, e, added(start, *self));
                    }
                    return Err(e);
                },
            };
            let ghost pages = session_replies(outs);
            proof {
                lemma_session_step(FEATURE_ADJUSTABLE_DPI, dpi_plan(), feature_index, calls, outs, c, response.param_bytes());
                calls = calls.push(c);
                outs = outs.push(o);
            }
            let params = response.params();

            // Skip first byte (sensor echo), collect the rest
            let ghost before = raw_bytes@;
            if params.len() > 1 {
                raw_bytes.extend_from_slice(vstd::slice::slice_subrange(params, 1, params.len()));
            }
            proof {
                let new_pages = pages.push(response.param_bytes());
                assert(new_pages.drop_last() =~= pages);
                assert(raw_bytes@ =~= before + dpi_page_bytes(response.param_bytes()));
                assert(session_replies(outs) == new_pages);
            }
            page = page + 1;
            // Stop if last two bytes are 0x0000 (terminator)
            if raw_bytes.len() >= 2 && raw_bytes[raw_bytes.len() - 2] == 0 && raw_bytes[raw_bytes.len() - 1] == 0 {
                break;
            }
        }
        proof {
            lemma_session_done(d, FEATURE_ADJUSTABLE_DPI, dpi_plan(), feature_index, calls, outs, added(start, *self));
        }
        let dpi_list = dpi_list_from_bytes(raw_bytes.as_slice());
        Ok(dpi_list)
    }

    /// Reads the current and default DPI for sensor 0.
    pub fn get_dpi(&mut self) -> (r: Result<(u16, u16), HidppError>)
        ensures
            grew(*old(self), *final(self)),
            dpi_exchange(old(self).device(), added(*old(self), *final(self)), r),
    {
        // Function 2: getSensorDpi(sensor=0)
        let p = [0x00];
        proof {
            assert(p@ =~= seq![0u8]);
        }
        match self.feature_request(FEATURE_ADJUSTABLE_DPI, 0x02, &p) {
            Ok(response) => Ok(dpi_pair_from_params(response.params())),
            Err(e) => Err(e),
        }
    }

    /// Sets the DPI for sensor 0.
    pub fn set_dpi(&mut self, dpi: u16) -> (r: Result<(), HidppError>)
        ensures
            grew(*old(self), *final(self)),
            setter_exchange(old(self).device(), FEATURE_ADJUSTABLE_DPI, 3, set_dpi_params(dpi), added(*old(self), *final(self)), r),
    {
        let ghost start = *self;
        let feature_index = match self.get_feature_index(FEATURE_ADJUSTABLE_DPI) {
            Ok(fi) => fi,
            Err(e) => {
                proof {
                    lemma_call_lookup_failed(start.device(), FEATURE_ADJUSTABLE_DPI, 3, set_dpi_params(dpi), added(start, *self));
                }
                return Err(e);
            },
        };
        let ghost mid = *self;
        let report = set_dpi_request(self.device_index(), feature_index, dpi);
        let ghost call = (feature_index, 3u8, set_dpi_params(dpi));
        let response = self.call_with(&report, Ghost(call));
        proof {
            lemma_feature_call(start, mid, *self, FEATURE_ADJUSTABLE_DPI, call, params_view(response));
        }
        match response {
            Ok(_) => Ok(()),
            Err(e) => Err(e),
        }
    }

    /// Convenience: reads DPI list + current/default into DpiInfo.
    pub fn get_dpi_settings(&mut self) -> (r: Result<DpiInfo, HidppError>)
        ensures
            grew(*old(self), *final(self)),
            dpi_settings_exchange(
                old(self).device(),
                added(*old(self), *final(self)),
                match r {
                    Ok(info) => Ok::<(Seq<u16>, u16, u16), HidppError>((info.dpi_list@, info.current_dpi, info.default_dpi)),
                    Err(e) => Err(e),
                },
            ),
    {
        let ghost start = *self;
        let listed = self.get_dpi_list();
        let ghost mid = *self;
        let ghost r1 = list_view(listed);
        proof {
            lemma_grew_refl(mid);
            lemma_grew_split(start, mid, mid);
        }
        let dpi_list = match listed {
            Ok(list) => list,
            Err(e) => {
                return Err(e);
            },
        };
        let pair = self.get_dpi();
        proof {
            lemma_grew_split(start, mid, *self);
            assert(dpi_list_exchange(start.device(), added(start, *self).take(added(start, mid).len() as int), r1));
        }
        match pair {
            Ok((current_dpi, default_dpi)) => Ok(DpiInfo { current_dpi, default_dpi, dpi_list }),
            Err(e) => Err(e),
        }
    }

    // ── SmartShift (0x2110 / 0x2111) ──

    /// Reads SmartShift settings. Tries enhanced (0x2111) first, falls back to standard (0x2110).
    pub fn get_smart_shift(&mut self) -> (r: Result<SmartShiftInfo, HidppError>)
        ensures
            grew(*old(self), *final(self)),
            smart_shift_exchange(old(self).device(), added(*old(self), *final(self)), r),
    {
        let ghost start = *self;
        let none: [u8; 0] = [];
        proof {
            assert(none@ =~= Seq::<u8>::empty());
        }
        let looked = self.get_feature_index(FEATURE_SMART_SHIFT_ENHANCED);
        let ghost mid = *self;
        proof {
            lemma_grew_refl(mid);
            lemma_grew_split(start, mid, mid);
        }
        match looked {
            Ok(feature_index) => {
                // Enhanced: read function = 0x01
                let report = long_request_with(self.device_index(), feature_index, 0x01, &none);
                let response = self.call_with(&report, Ghost((feature_index, 1u8, none@)));
                proof {
                    lemma_grew_split(start, mid, *self);
                }
                match response {
                    Ok(resp) => Ok(smart_shift_from_params(resp.params(), true)),
                    Err(e) => Err(e),
                }
            },
            Err(HidppError::FeatureNotFound { .. }) => {
                // Standard: read function = 0x00
                let response = self.feature_request(FEATURE_SMART_SHIFT, 0x00, &none);
                proof {
                    lemma_grew_split(start, mid, *self);
                }
                match response {
                    Ok(resp) => Ok(smart_shift_from_params(resp.params(), false)),
                    Err(e) => Err(e),
                }
            },
            Err(e) => Err(e),
        }
    }

    /// Sets SmartShift mode and threshold.
    pub fn set_smart_shift(&mut self, mode: u8, threshold: u8) -> (r: Result<(), HidppError>)
        ensures
            grew(*old(self), *final(self)),
            set_smart_shift_exchange(old(self).device(), mode, threshold, added(*old(self), *final(self)), r),
    {
        let ghost start = *self;
        let looked = self.get_feature_index(FEATURE_SMART_SHIFT_ENHANCED);
        let ghost mid = *self;
        proof {
            lemma_grew_refl(mid);
            lemma_grew_split(start, mid, mid);
        }
        match looked {
            Ok(feature_index) => {
                // Enhanced: write function = 0x02
                let report = smart_shift_request(self.device_index(), feature_index, true, mode, threshold);
                let response = self.call_with(&report, Ghost((feature_index, 2u8, seq![mode, threshold])));
                proof {
                    lemma_grew_split(start, mid, *self);
                }
                match response {
                    Ok(_) => Ok(()),
                    Err(e) => Err(e),
                }
            },
            Err(HidppError::FeatureNotFound { .. }) => {
                let feature_index = match self.get_feature_index(FEATURE_SMART_SHIFT) {
                    Ok(fi) => fi,
                    Err(e) => {
                        proof {
                            lemma_call_lookup_failed(start.device(), FEATURE_SMART_SHIFT, 1, seq![mode, threshold], added(mid, *self));
                            lemma_grew_split(start, mid, *self);
                        }
                        return Err(e);
                    },
                };
                let ghost inner = *self;
                // Standard: write function = 0x01
                let report = smart_shift_request(self.device_index(), feature_index, false, mode, threshold);
                let ghost call = (feature_index, 1u8, seq![mode, threshold]);
                let response = self.call_with(&report, Ghost(call));
                proof {
                    lemma_feature_call(mid, inner, *self, FEATURE_SMART_SHIFT, call, params_view(response));
                    lemma_grew_split(start, mid, *self);
                }
                match response {
                    Ok(_) => Ok(()),
                    Err(e) => Err(e),
                }
            },
            Err(e) => Err(e),
        }
    }

    // ── HiResWheel (0x2121) ──

    /// Reads hi-res wheel capabilities and current mode.
    pub fn get_hires_wheel(&mut self) -> (r: Result<HiResWheelInfo, HidppError>)
        ensures
            grew(*old(self), *final(self)),
            hires_exchange(old(self).device(), added(*old(self), *final(self)), r),
    {
        let ghost start = *self;
        let ghost d = self.device();
        let feature_index = match self.get_feature_index(FEATURE_HIRES_WHEEL) {
            Ok(fi) => fi,
            Err(e) => {
                proof {
                    lemma_session_lookup_failed(d, FEATURE_HIRES_WHEEL, hires_plan(), added(start, *self));
                }
                return Err(e);
            },
        };
        let ghost mut calls: Seq<Call> = Seq::empty();
        let ghost mut outs: Seq<Reply> = Seq::empty();
        proof {
            let (c, o) = lemma_session_start(d, FEATURE_HIRES_WHEEL, hires_plan(), added(start, *self));
            calls = c;
            outs = o;
        }
        let none: [u8; 0] = [];
        proof {
            assert(none@ =~= Seq::<u8>::empty());
        }
        // Function 0: getCapabilities
        let report = long_request_with(self.device_index(), feature_index, 0x00, &none);
        let ghost c0 = (feature_index, 0u8, none@);
        let got = self.session_call(&report, Ghost(c0), Ghost(start), Ghost(calls), Ghost(outs));
        let ghost o0 = params_view(got);
        let caps = match got {
            Ok(resp) => resp,
            Err(e) => {
                proof {
                    lemma_session_failed(d, FEATURE_HIRES_WHEEL, hires_plan(), feature_index, calls, outs, c0, e, added(start, *self));
                }
                return Err(e);
            },
        };
        proof {
            lemma_session_step(FEATURE_HIRES_WHEEL, hires_plan(), feature_index, calls, outs, c0, caps.param_bytes());
            calls = calls.push(c0);
            outs = outs.push(o0);
        }
        // Function 1: getMode
        let report = long_request_with(self.device_index(), feature_index, 0x01, &none);
        let ghost c1 = (feature_index, 1u8, none@);
        let got = self.session_call(&report, Ghost(c1), Ghost(start), Ghost(calls), Ghost(outs));
        let ghost o1 = params_view(got);
        let mode = match got {
            Ok(resp) => resp,
            Err(e) => {
                proof {
                    lemma_session_failed(d, FEATURE_HIRES_WHEEL, hires_plan(), feature_index, calls, outs, c1, e, added(start, *self));
                }
                return Err(e);
            },
        };
        proof {
            lemma_session_step(FEATURE_HIRES_WHEEL, hires_plan(), feature_index, calls, outs, c1, mode.param_bytes());
            calls = calls.push(c1);
            outs = outs.push(o1);
        }
        // Function 3: getRatchet
        let report = long_request_with(self.device_index(), feature_index, 0x03, &none);
        let ghost c3 = (feature_index, 3u8, none@);
        let got = self.session_call(&report, Ghost(c3), Ghost(start), Ghost(calls), Ghost(outs));
        let ghost o3 = params_view(got);
        let ratchet = match got {
            Ok(resp) => resp,
            Err(e) => {
                proof {
                    lemma_session_failed(d, FEATURE_HIRES_WHEEL, hires_plan(), feature_index, calls, outs, c3, e, added(start, *self));
                }
                return Err(e);
            },
        };
        proof {
            lemma_session_step(FEATURE_HIRES_WHEEL, hires_plan(), feature_index, calls, outs, c3, ratchet.param_bytes());
            calls = calls.push(c3);
            outs = outs.push(o3);
            lemma_session_done(d, FEATURE_HIRES_WHEEL, hires_plan(), feature_index, calls, outs, added(start, *self));
        }
        Ok(hires_wheel_from_params(caps.params(), mode.params(), ratchet.params()))
    }

    /// Sets hi-res wheel mode (resolution + invert).
    pub fn set_hires_wheel_mode(&mut self, hi_res: bool, invert: bool) -> (r: Result<(), HidppError>)
        ensures
            grew(*old(self), *final(self)),
            setter_exchange(old(self).device(), FEATURE_HIRES_WHEEL, 2, seq![hires_mode_bits(hi_res, invert)], added(*old(self), *final(self)), r),
    {
        let ghost start = *self;
        let feature_index = match self.get_feature_index(FEATURE_HIRES_WHEEL) {
            Ok(fi) => fi,
            Err(e) => {
                proof {
                    lemma_call_lookup_failed(start.device(), FEATURE_HIRES_WHEEL, 2, seq![hires_mode_bits(hi_res, invert)], added(start, *self));
                }
                return Err(e);
            },
        };
        let ghost mid = *self;
        let report = hires_mode_request(self.device_index(), feature_index, hi_res, invert);
        let ghost call = (feature_index, 2u8, seq![hires_mode_bits(hi_res, invert)]);
        let response = self.call_with(&report, Ghost(call));
        proof {
            lemma_feature_call(start, mid, *self, FEATURE_HIRES_WHEEL, call, params_view(response));
        }
        match response {
            Ok(_) => Ok(()),
            Err(e) => Err(e),
        }
    }

    /// Sets hi-res wheel ratchet mode.
    pub fn set_hires_wheel_ratchet(&mut self, ratchet: bool) -> (r: Result<(), HidppError>)
        ensures
            grew(*old(self), *final(self)),
            setter_exchange(old(self).device(), FEATURE_HIRES_WHEEL, 4, ratchet_params(ratchet), added(*old(self), *final(self)), r),
    {
        let ghost start = *self;
        let feature_index = match self.get_feature_index(FEATURE_HIRES_WHEEL) {
            Ok(fi) => fi,
            Err(e) => {
                proof {
                    lemma_call_lookup_failed(start.device(), FEATURE_HIRES_WHEEL, 4, ratchet_params(ratchet), added(start, *self));
                }
                return Err(e);
            },
        };
        let ghost mid = *self;
        let report = hires_ratchet_request(self.device_index(), feature_index, ratchet);
        let ghost call = (feature_index, 4u8, ratchet_params(ratchet));
        let response = self.call_with(&report, Ghost(call));
        proof {
            lemma_feature_call(start, mid, *self, FEATURE_HIRES_WHEEL, call, params_view(response));
        }
        match response {
            Ok(_) => Ok(()),
            Err(e) => Err(e),
        }
    }

    // ── ReprogControls v4 (0x1B04) ──

    /// Enumerates all programmable controls and their current mappings.
    pub fn get_reprog_controls(&mut self) -> (r: Result<Vec<ReprogControl>, HidppError>)
        ensures
            grew(*old(self), *final(self)),
            reprog_exchange(old(self).device(), added(*old(self), *final(self)), r),
    {
        let ghost start = *self;
        let ghost d = self.device();
        let feature_index = match self.get_feature_index(FEATURE_REPROG_CONTROLS_V4) {
            Ok(fi) => fi,
            Err(e) => {
                proof {
                    lemma_session_lookup_failed(d, FEATURE_REPROG_CONTROLS_V4, reprog_plan(), added(start, *self));
                }
                return Err(e);
            },
        };
        let ghost mut calls: Seq<Call> = Seq::empty();
        let ghost mut outs: Seq<Reply> = Seq::empty();
        proof {
            let (c, o) = lemma_session_start(d, FEATURE_REPROG_CONTROLS_V4, reprog_plan(), added(start, *self));
            calls = c;
            outs = o;
        }
        let none: [u8; 0] = [];
        proof {
            assert(none@ =~= Seq::<u8>::empty());
        }
        // Function 0: getControlCount
        let report = long_request_with(self.device_index(), feature_index, 0x00, &none);
        let ghost c0 = (feature_index, 0u8, none@);
        let got = self.session_call(&report, Ghost(c0), Ghost(start), Ghost(calls), Ghost(outs));
        let ghost o0 = params_view(got);
        let response = match got {
            Ok(resp) => resp,
            Err(e) => {
                proof {
                    lemma_session_failed(d, FEATURE_REPROG_CONTROLS_V4, reprog_plan(), feature_index, calls, outs, c0, e, added(start, *self));
                }
                return Err(e);
            },
        };
        proof {
            lemma_session_step(FEATURE_REPROG_CONTROLS_V4, reprog_plan(), feature_index, calls, outs, c0, response.param_bytes());
            calls = calls.push(c0);
            outs = outs.push(o0);
        }
        let count = byte_or_zero(response.params(), 0);

        let mut controls: Vec<ReprogControl> = Vec::new();
        let mut index: u8 = 0;
        while index < count
            invariant
                index <= count,
                controls@.len() == index,
                start == *old(self),
                d == start.device(),
                grew(start, *self),
                calls_events(d, calls, outs, added(start, *self)),
                session_prefix(FEATURE_REPROG_CONTROLS_V4, reprog_plan(), feature_index, calls, outs),
                session_replies(outs).len() == 1 + 2 * index,
                byte_at(session_replies(outs)[0], 0) == count,
                forall|k: int|
                    0 <= k < index ==> reprog_control_of(
                        #[trigger] controls@[k],
                        session_replies(outs)[1 + 2 * k],
                        session_replies(outs)[2 + 2 * k],
                    ),
            decreases count - index,
        {
            // Function 1: getControlInfo(index)
            let p = [index];
            proof {
                assert(p@ =~= seq![index]);
            }
            let report = long_request_with(self.device_index(), feature_index, 0x01, &p);
            let ghost c1 = (feature_index, 1u8, p@);
            let got = self.session_call(&report, Ghost(c1), Ghost(start), Ghost(calls), Ghost(outs));
            let ghost o1 = params_view(got);
            let info = match got {
                Ok(resp) => resp,
                Err(e) => {
                    proof {
                        lemma_session_failed(d, FEATURE_REPROG_CONTROLS_V4, reprog_plan(), feature_index, calls, outs, c1, e, added(start, *self));
                    }
                    return Err(e);
                },
            };
            let ghost replies0 = session_replies(outs);
            proof {
                lemma_session_step(FEATURE_REPROG_CONTROLS_V4, reprog_plan(), feature_index, calls, outs, c1, info.param_bytes());
                calls = calls.push(c1);
                outs = outs.push(o1);
            }
            let ip = info.params();
            let cid = be16_of(byte_or_zero(ip, 0), byte_or_zero(ip, 1));
            // Function 2: getControlMapping(cid)
            proof {
                lemma_be16_bytes(byte_at(ip@, 0), byte_at(ip@, 1));
                assert(session_replies(outs).last() == ip@);
            }
            let report = control_mapping_request(self.device_index(), feature_index, cid);
            let ghost c2 = (feature_index, 2u8, seq![byte_at(ip@, 0), byte_at(ip@, 1)]);
            let got = self.session_call(&report, Ghost(c2), Ghost(start), Ghost(calls), Ghost(outs));
            let ghost o2 = params_view(got);
            let mapping = match got {
                Ok(resp) => resp,
                Err(e) => {
                    proof {
                        lemma_session_failed(d, FEATURE_REPROG_CONTROLS_V4, reprog_plan(), feature_index, calls, outs, c2, e, added(start, *self));
                    }
                    return Err(e);
                },
            };
            let ghost replies1 = session_replies(outs);
            proof {
                lemma_session_step(FEATURE_REPROG_CONTROLS_V4, reprog_plan(), feature_index, calls, outs, c2, mapping.param_bytes());
                calls = calls.push(c2);
                outs = outs.push(o2);
            }
            let control = reprog_control_from_params(ip, mapping.params());
            proof {
                let rs = session_replies(outs);
                assert(rs == replies1.push(mapping.param_bytes()));
                assert(replies1 == replies0.push(info.param_bytes()));
                assert(rs[1 + 2 * index as int] == info.param_bytes());
                assert(rs[2 + 2 * index as int] == mapping.param_bytes());
            }
            controls.push(control);
            index = index + 1;
        }
        proof {
            lemma_session_done(d, FEATURE_REPROG_CONTROLS_V4, reprog_plan(), feature_index, calls, outs, added(start, *self));
        }
        Ok(controls)
    }

    /// Remaps a control (button) to a different function.
    pub fn set_reprog_control_mapping(&mut self, cid: u16, remap_to: u16) -> (r: Result<(), HidppError>)
        ensures
            grew(*old(self), *final(self)),
            setter_exchange(old(self).device(), FEATURE_REPROG_CONTROLS_V4, 3, remap_params(cid, remap_to), added(*old(self), *final(self)), r),
    {
        let ghost start = *self;
        let feature_index = match self.get_feature_index(FEATURE_REPROG_CONTROLS_V4) {
            Ok(fi) => fi,
            Err(e) => {
                proof {
                    lemma_call_lookup_failed(start.device(), FEATURE_REPROG_CONTROLS_V4, 3, remap_params(cid, remap_to), added(start, *self));
                }
                return Err(e);
            },
        };
        let ghost mid = *self;
        let report = set_control_mapping_request(self.device_index(), feature_index, cid, remap_to);
        let ghost call = (feature_index, 3u8, remap_params(cid, remap_to));
        let response = self.call_with(&report, Ghost(call));
        proof {
            lemma_feature_call(start, mid, *self, FEATURE_REPROG_CONTROLS_V4, call, params_view(response));
        }
        match response {
            Ok(_) => Ok(()),
            Err(e) => Err(e),
        }
    }

    // ── Feature Discovery ──

    /// Whether probing a feature ID finds it at a nonzero index.
    fn has_feature(&mut self, feature_id: u16) -> (b: bool)
        ensures
            grew(*old(self), *final(self)),
            probe_exchange(old(self).device(), feature_id, added(*old(self), *final(self)), b),
    {
        match self.get_feature_index(feature_id) {
            Ok(idx) => idx > 0,
            Err(_) => false,
        }
    }

    /// Probes the device for all known features and returns capability flags.
    #[verifier::spinoff_prover]
    #[verifier::rlimit(50)]
    pub fn discover_capabilities(&mut self) -> (caps: DeviceCapabilities)
        ensures
            grew(*old(self), *final(self)),
            capabilities_exchange(old(self).device(), added(*old(self), *final(self)), caps),
    {
        let ghost start = *self;
        let ghost d = self.device();
        let ghost mut calls: Seq<Call> = Seq::empty();
        let ghost mut outs: Seq<Reply> = Seq::empty();
        proof {
            lemma_grew_refl(start);
            lemma_calls_empty(d);
        }
        let ghost s = *self;
        let has_firmware_version = self.has_feature(FEATURE_DEVICE_FW_VERSION);
        let ghost o0 = lemma_probe_push(start, s, *self, calls, outs, FEATURE_DEVICE_FW_VERSION, has_firmware_version);
        proof {
            calls = calls.push(lookup_call(FEATURE_DEVICE_FW_VERSION));
            outs = outs.push(o0);
        }
        let ghost s = *self;
        let has_dpi = self.has_feature(FEATURE_ADJUSTABLE_DPI);
        let ghost o1 = lemma_probe_push(start, s, *self, calls, outs, FEATURE_ADJUSTABLE_DPI, has_dpi);
        proof {
            calls = calls.push(lookup_call(FEATURE_ADJUSTABLE_DPI));
            outs = outs.push(o1);
        }
        let ghost s = *self;
        let standard = self.has_feature(FEATURE_SMART_SHIFT);
        let ghost o2 = lemma_probe_push(start, s, *self, calls, outs, FEATURE_SMART_SHIFT, standard);
        proof {
            calls = calls.push(lookup_call(FEATURE_SMART_SHIFT));
            outs = outs.push(o2);
        }
        let has_smart_shift = if standard {
            true
        } else {
            let ghost s = *self;
            let enhanced = self.has_feature(FEATURE_SMART_SHIFT_ENHANCED);
            let ghost o = lemma_probe_push(start, s, *self, calls, outs, FEATURE_SMART_SHIFT_ENHANCED, enhanced);
            proof {
                calls = calls.push(lookup_call(FEATURE_SMART_SHIFT_ENHANCED));
                outs = outs.push(o);
            }
            enhanced
        };
        let ghost s = *self;
        let has_smart_shift_enhanced = self.has_feature(FEATURE_SMART_SHIFT_ENHANCED);
        let ghost o3 = lemma_probe_push(start, s, *self, calls, outs, FEATURE_SMART_SHIFT_ENHANCED, has_smart_shift_enhanced);
        proof {
            calls = calls.push(lookup_call(FEATURE_SMART_SHIFT_ENHANCED));
            outs = outs.push(o3);
        }
        let ghost s = *self;
        let has_hires_wheel = self.has_feature(FEATURE_HIRES_WHEEL);
        let ghost o4 = lemma_probe_push(start, s, *self, calls, outs, FEATURE_HIRES_WHEEL, has_hires_wheel);
        proof {
            calls = calls.push(lookup_call(FEATURE_HIRES_WHEEL));
            outs = outs.push(o4);
        }
        let ghost s = *self;
        let has_reprog_controls = self.has_feature(FEATURE_REPROG_CONTROLS_V4);
        let ghost o5 = lemma_probe_push(start, s, *self, calls, outs, FEATURE_REPROG_CONTROLS_V4, has_reprog_controls);
        proof {
            calls = calls.push(lookup_call(FEATURE_REPROG_CONTROLS_V4));
            outs = outs.push(o5);
        }
        let caps = DeviceCapabilities {
            has_firmware_version,
            has_dpi,
            has_smart_shift,
            has_smart_shift_enhanced,
            has_hires_wheel,
            has_reprog_controls,
        };
        proof {
            assert(capability_probes(calls, outs, caps));
        }
        caps
    }
}

} // verus!
