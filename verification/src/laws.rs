use vstd::prelude::*;

use crate::config::{action_exchange, SettingAction};
use crate::error::HidppError;
use crate::features::{
    battery_status_info, hires_wheel_info, firmware_info_of, smart_shift_exchange, smart_shift_info,
    FirmwareInfo, FirmwareKind, HiResWheelInfo, SmartShiftInfo, FEATURE_CHANGE_HOST,
    byte_at, dpi_exchange, dpi_pair_of, dpi_settings_exchange, feature_call, lemma_long_request_frame,
    long_request, reprog_control_of, set_smart_shift_exchange, setter_exchange, unified_battery_exchange,
    unified_battery_info, BatteryInfo, BatteryLevel, ChargingStatus, ReprogControl, FEATURE_ADJUSTABLE_DPI,
    FEATURE_SMART_SHIFT, FEATURE_SMART_SHIFT_ENHANCED, FEATURE_UNIFIED_BATTERY,
};
use crate::session::{call_result, lemma_request_writes_once, lookup_call, lookup_result, read_with, request_timeout};
use crate::transport::TransportEvent;

verus! {

// ── Frames written ──

/// A frame that a feature access request writes: the lookup of a feature ID
/// (feature index 0), or a request at a nonzero feature index found by one.
pub open spec fn lookup_frame(device: u8, feature_id: u16) -> Seq<u8> {
    long_request(device, 0, 0, lookup_call(feature_id).2)
}

/// The frames a feature call writes: its lookup's, then, at the nonzero index
/// the lookup found, one with the call's function and parameters.
pub proof fn lemma_feature_call_frames(
    device: u8,
    feature_id: u16,
    function: u8,
    params: Seq<u8>,
    ev: Seq<TransportEvent>,
    reply: Result<Seq<u8>, HidppError>,
)
    requires
        feature_call(device, feature_id, function, params, ev, reply),
    ensures
        forall|j: int|
            0 <= j < ev.len() ==> (#[trigger] ev[j] matches TransportEvent::Write(w, _) ==> w == lookup_frame(
                device,
                feature_id,
            ) || (w[2] != 0 && w == long_request(device, w[2], function, params))),
{
    let k = choose|k: int|
        #![trigger ev.take(k)]
        0 <= k <= ev.len() && match lookup_result(device, feature_id, ev.take(k)) {
            Some(Ok(fi)) => call_result(device, (fi, function, params), ev.skip(k)) == Some(reply),
            Some(Err(e)) => k == ev.len() && reply == Err::<Seq<u8>, HidppError>(e),
            None => false,
        };
    let t = request_timeout();
    let first = ev.take(k);
    let rest = ev.skip(k);
    lemma_request_writes_once(lookup_frame(device, feature_id), device, 0, 0, t, first);
    if let Some(Ok(fi)) = lookup_result(device, feature_id, first) {
        let frame = long_request(device, fi, function, params);
        lemma_request_writes_once(frame, device, fi, function, t, rest);
        assert(frame[2] == fi);
        assert(fi != 0);
    }
    assert forall|j: int| 0 <= j < ev.len() implies (#[trigger] ev[j] matches TransportEvent::Write(w, _) ==> w
        == lookup_frame(device, feature_id) || (w[2] != 0 && w == long_request(device, w[2], function, params))) by {
        if j < k {
            assert(ev[j] == first[j]);
            if j > 0 {
                assert(read_with(first[j], t));
            }
        } else {
            assert(ev[j] == rest[j - k]);
            if j > k {
                assert(read_with(rest[j - k], t));
            }
        }
    }
}

/// The parameter bytes of a long request stand at offset 4 of its frame.
proof fn lemma_frame_params(device: u8, feature: u8, function: u8, params: Seq<u8>, i: int)
    requires
        function < 16,
        params.len() <= 16,
        0 <= i < params.len(),
    ensures
        long_request(device, feature, function, params)[4 + i] == params[i],
        long_request(device, feature, function, params)[3] >> 4u8 == function,
{
    lemma_long_request_frame(device, feature, function, params);
    let f = long_request(device, feature, function, params);
    assert(f.subrange(4, 4 + params.len() as int)[i] == f[4 + i]);
}

// ── Settings changes ──

/// Settings law: every frame that applying a settings change writes, other
/// than the feature lookups at index 0, carries the values the change holds:
/// the DPI big-endian after sensor 0; the SmartShift mode, then threshold;
/// the wheel mode byte with bit 1 for hi-res and bit 2 for invert; the
/// ratchet as 1 or 0; the control ID and its target big-endian.
pub proof fn lemma_action_writes_setting(device: u8, action: SettingAction, ev: Seq<TransportEvent>, r: Result<(), HidppError>)
    requires
        action_exchange(device, action, ev, r),
    ensures
        forall|j: int|
            0 <= j < ev.len() ==> (#[trigger] ev[j] matches TransportEvent::Write(w, _) ==> w[2] != 0 ==> match action {
                SettingAction::SetDpi(dpi) => w[4] == 0 && w[5] as int * 256 + w[6] as int == dpi as int,
                SettingAction::SetSmartShift { mode, threshold } => w[4] == mode && w[5] == threshold,
                SettingAction::SetHiResMode { hi_res, invert } => w[4] < 8 && (w[4] % 2 == 0) && ((w[4] / 2) % 2 == 1
                    <==> hi_res) && (w[4] / 4 == 1 <==> invert),
                SettingAction::SetHiResRatchet(ratchet) => (ratchet ==> w[4] == 1) && (!ratchet ==> w[4] == 0),
                SettingAction::RemapButton { cid, remap_to } => w[4] as int * 256 + w[5] as int == cid as int
                    && w[6] == 0 && w[7] as int * 256 + w[8] as int == remap_to as int,
            }),
{
    reveal(action_exchange);
    match action {
        SettingAction::SetSmartShift { mode, threshold } => {
            lemma_set_smart_shift_writes(device, mode, threshold, ev, r);
        },
        _ => {
            let (id, function, params) = match action {
                SettingAction::SetDpi(dpi) => (FEATURE_ADJUSTABLE_DPI, 3u8, crate::features::set_dpi_params(dpi)),
                SettingAction::SetHiResMode { hi_res, invert } => (
                    crate::features::FEATURE_HIRES_WHEEL,
                    2u8,
                    seq![crate::features::hires_mode_bits(hi_res, invert)],
                ),
                SettingAction::SetHiResRatchet(ratchet) => (
                    crate::features::FEATURE_HIRES_WHEEL,
                    4u8,
                    crate::features::ratchet_params(ratchet),
                ),
                SettingAction::RemapButton { cid, remap_to } => (
                    crate::features::FEATURE_REPROG_CONTROLS_V4,
                    3u8,
                    crate::features::remap_params(cid, remap_to),
                ),
                SettingAction::SetSmartShift { .. } => (0u16, 0u8, Seq::empty()),
            };
            assert(setter_exchange(device, id, function, params, ev, r));
            let reply = choose|reply: Result<Seq<u8>, HidppError>|
                #[trigger] feature_call(device, id, function, params, ev, reply) && r == match reply {
                    Ok(_) => Ok::<(), HidppError>(()),
                    Err(e) => Err(e),
                };
            lemma_feature_call_frames(device, id, function, params, ev, reply);
            assert forall|j: int| 0 <= j < ev.len() implies (#[trigger] ev[j] matches TransportEvent::Write(w, _) ==> w[2] != 0
                ==> match action {
                SettingAction::SetDpi(dpi) => w[4] == 0 && w[5] as int * 256 + w[6] as int == dpi as int,
                SettingAction::SetSmartShift { mode, threshold } => w[4] == mode && w[5] == threshold,
                SettingAction::SetHiResMode { hi_res, invert } => w[4] < 8 && (w[4] % 2 == 0) && ((w[4] / 2) % 2 == 1
                    <==> hi_res) && (w[4] / 4 == 1 <==> invert),
                SettingAction::SetHiResRatchet(ratchet) => (ratchet ==> w[4] == 1) && (!ratchet ==> w[4] == 0),
                SettingAction::RemapButton { cid, remap_to } => w[4] as int * 256 + w[5] as int == cid as int
                    && w[6] == 0 && w[7] as int * 256 + w[8] as int == remap_to as int,
            }) by {
                if let TransportEvent::Write(w, _) = ev[j] {
                    if w[2] != 0 {
                        lemma_long_request_frame(device, 0, 0, lookup_call(0x0000).2);
                        assert(lookup_frame(device, id)[2] == 0);
                        assert(w == long_request(device, w[2], function, params));
                        let f = w[2];
                        match action {
                            SettingAction::SetDpi(dpi) => {
                                lemma_frame_params(device, f, function, params, 0);
                                lemma_frame_params(device, f, function, params, 1);
                                lemma_frame_params(device, f, function, params, 2);
                                let hi = (dpi >> 8u16) as u8;
                                let lo = (dpi & 0xFFu16) as u8;
                                assert(hi as int * 256 + lo as int == dpi as int) by (bit_vector)
                                    requires
                                        hi == (dpi >> 8u16) as u8,
                                        lo == (dpi & 0xFFu16) as u8,
                                ;
                            },
                            SettingAction::SetHiResMode { hi_res, invert } => {
                                lemma_frame_params(device, f, function, params, 0);
                                let b = crate::features::hires_mode_bits(hi_res, invert);
                                assert(b < 8 && b % 2 == 0 && ((b / 2) % 2 == 1 <==> hi_res) && (b / 4 == 1 <==> invert))
                                    by (bit_vector)
                                    requires
                                        b == ((if hi_res { 0x02u8 } else { 0u8 }) | (if invert { 0x04u8 } else { 0u8 })) as u8,
                                ;
                            },
                            SettingAction::SetHiResRatchet(ratchet) => {
                                lemma_frame_params(device, f, function, params, 0);
                            },
                            SettingAction::RemapButton { cid, remap_to } => {
                                lemma_frame_params(device, f, function, params, 0);
                                lemma_frame_params(device, f, function, params, 1);
                                lemma_frame_params(device, f, function, params, 2);
                                lemma_frame_params(device, f, function, params, 3);
                                lemma_frame_params(device, f, function, params, 4);
                                let h1 = (cid >> 8u16) as u8;
                                let l1 = (cid & 0xFFu16) as u8;
                                let h2 = (remap_to >> 8u16) as u8;
                                let l2 = (remap_to & 0xFFu16) as u8;
                                assert(h1 as int * 256 + l1 as int == cid as int) by (bit_vector)
                                    requires
                                        h1 == (cid >> 8u16) as u8,
                                        l1 == (cid & 0xFFu16) as u8,
                                ;
                                assert(h2 as int * 256 + l2 as int == remap_to as int) by (bit_vector)
                                    requires
                                        h2 == (remap_to >> 8u16) as u8,
                                        l2 == (remap_to & 0xFFu16) as u8,
                                ;
                            },
                            SettingAction::SetSmartShift { .. } => {},
                        }
                    }
                }
            }
        },
    }
}

/// SmartShift law: every frame that `set_smart_shift(mode, threshold)` writes,
/// other than the feature lookups at index 0, carries the mode, then the
/// threshold, whichever SmartShift feature it goes to.
pub proof fn lemma_set_smart_shift_writes(device: u8, mode: u8, threshold: u8, ev: Seq<TransportEvent>, r: Result<(), HidppError>)
    requires
        set_smart_shift_exchange(device, mode, threshold, ev, r),
    ensures
        forall|j: int|
            0 <= j < ev.len() ==> (#[trigger] ev[j] matches TransportEvent::Write(w, _) ==> w[2] != 0 ==> w[4] == mode
                && w[5] == threshold),
{
    let k = choose|k: int|
        #![trigger ev.take(k)]
        0 <= k <= ev.len() && match lookup_result(device, FEATURE_SMART_SHIFT_ENHANCED, ev.take(k)) {
            Some(Ok(fi)) => call_result(device, (fi, 2u8, seq![mode, threshold]), ev.skip(k)) matches Some(reply) && r == match reply {
                Ok(_) => Ok::<(), HidppError>(()),
                Err(e) => Err(e),
            },
            Some(Err(HidppError::FeatureNotFound { .. })) => setter_exchange(device, FEATURE_SMART_SHIFT, 1, seq![mode, threshold], ev.skip(k), r),
            Some(Err(e)) => k == ev.len() && r == Err::<(), HidppError>(e),
            None => false,
        };
    let t = request_timeout();
    let first = ev.take(k);
    let rest = ev.skip(k);
    let params = seq![mode, threshold];
    lemma_request_writes_once(lookup_frame(device, FEATURE_SMART_SHIFT_ENHANCED), device, 0, 0, t, first);
    lemma_long_request_frame(device, 0, 0, lookup_call(FEATURE_SMART_SHIFT_ENHANCED).2);
    match lookup_result(device, FEATURE_SMART_SHIFT_ENHANCED, first) {
        Some(Ok(fi)) => {
            lemma_request_writes_once(long_request(device, fi, 2, params), device, fi, 2, t, rest);
        },
        Some(Err(HidppError::FeatureNotFound { .. })) => {
            let reply = choose|reply: Result<Seq<u8>, HidppError>|
                #[trigger] feature_call(device, FEATURE_SMART_SHIFT, 1, params, rest, reply) && r == match reply {
                    Ok(_) => Ok::<(), HidppError>(()),
                    Err(e) => Err(e),
                };
            lemma_feature_call_frames(device, FEATURE_SMART_SHIFT, 1, params, rest, reply);
            lemma_long_request_frame(device, 0, 0, lookup_call(FEATURE_SMART_SHIFT).2);
        },
        _ => {},
    }
    assert forall|j: int| 0 <= j < ev.len() implies (#[trigger] ev[j] matches TransportEvent::Write(w, _) ==> w[2] != 0
        ==> w[4] == mode && w[5] == threshold) by {
        if let TransportEvent::Write(w, _) = ev[j] {
            if w[2] != 0 {
                if j < k {
                    assert(ev[j] == first[j]);
                    if j > 0 {
                        assert(read_with(first[j], t));
                    }
                } else {
                    assert(ev[j] == rest[j - k]);
                    if let Some(Ok(fi)) = lookup_result(device, FEATURE_SMART_SHIFT_ENHANCED, first) {
                        if j > k {
                            assert(read_with(rest[j - k], t));
                        }
                        lemma_frame_params(device, fi, 2, params, 0);
                        lemma_frame_params(device, fi, 2, params, 1);
                    } else {
                        assert(lookup_frame(device, FEATURE_SMART_SHIFT)[2] == 0);
                        lemma_frame_params(device, w[2], 1, params, 0);
                        lemma_frame_params(device, w[2], 1, params, 1);
                    }
                }
            }
        }
    }
}

// ── DPI ──

/// DPI pair law: a getSensorDpi reply gives as current DPI its bytes 1-2
/// big-endian, or the default where those are zero, and as default DPI its
/// bytes 3-4 big-endian.
pub proof fn lemma_dpi_pair(p: Seq<u8>, pair: (u16, u16))
    requires
        pair == dpi_pair_of(p),
    ensures
        pair.1 as int == byte_at(p, 3) as int * 256 + byte_at(p, 4) as int,
        byte_at(p, 1) as int * 256 + byte_at(p, 2) as int == 0 ==> pair.0 == pair.1,
        byte_at(p, 1) as int * 256 + byte_at(p, 2) as int != 0 ==> pair.0 as int == byte_at(p, 1) as int * 256
            + byte_at(p, 2) as int,
{
}

/// DPI settings law: the settings' current and default DPI are those of the
/// getSensorDpi reply that follows the DPI list, in that order: the current
/// is its bytes 1-2 big-endian (the default where zero), the default its
/// bytes 3-4.
pub proof fn lemma_dpi_settings_current_default(
    device: u8,
    ev: Seq<TransportEvent>,
    list: Seq<u16>,
    current: u16,
    default: u16,
)
    requires
        dpi_settings_exchange(device, ev, Ok((list, current, default))),
    ensures
        exists|k: int, p: Seq<u8>|
            #![trigger feature_call(device, FEATURE_ADJUSTABLE_DPI, 2, seq![0u8], ev.skip(k), Ok::<Seq<u8>, HidppError>(p))]
            0 <= k <= ev.len() && feature_call(device, FEATURE_ADJUSTABLE_DPI, 2, seq![0u8], ev.skip(k), Ok::<Seq<u8>, HidppError>(p))
                && default as int == byte_at(p, 3) as int * 256 + byte_at(p, 4) as int && (byte_at(p, 1) as int * 256
                + byte_at(p, 2) as int == 0 ==> current == default) && (byte_at(p, 1) as int * 256 + byte_at(p, 2) as int
                != 0 ==> current as int == byte_at(p, 1) as int * 256 + byte_at(p, 2) as int),
{
    let (k, l) = choose|k: int, l: Result<Seq<u16>, HidppError>|
        #![trigger crate::features::dpi_list_exchange(device, ev.take(k), l)]
        0 <= k <= ev.len() && crate::features::dpi_list_exchange(device, ev.take(k), l) && match l {
            Err(e) => k == ev.len() && Ok::<(Seq<u16>, u16, u16), HidppError>((list, current, default)) == Err::<
                (Seq<u16>, u16, u16),
                HidppError,
            >(e),
            Ok(l) => exists|pair: Result<(u16, u16), HidppError>|
                #[trigger] dpi_exchange(device, ev.skip(k), pair) && Ok::<(Seq<u16>, u16, u16), HidppError>(
                    (list, current, default),
                ) == match pair {
                    Ok(p) => Ok::<(Seq<u16>, u16, u16), HidppError>((l, p.0, p.1)),
                    Err(e) => Err(e),
                },
        };
    let pair = choose|pair: Result<(u16, u16), HidppError>|
        #[trigger] dpi_exchange(device, ev.skip(k), pair) && Ok::<(Seq<u16>, u16, u16), HidppError>(
            (list, current, default),
        ) == match pair {
            Ok(p) => Ok::<(Seq<u16>, u16, u16), HidppError>((l->Ok_0, p.0, p.1)),
            Err(e) => Err(e),
        };
    let reply = choose|reply: Result<Seq<u8>, HidppError>|
        #[trigger] feature_call(device, FEATURE_ADJUSTABLE_DPI, 2, seq![0u8], ev.skip(k), reply) && pair == match reply {
            Ok(p) => Ok::<(u16, u16), HidppError>(dpi_pair_of(p)),
            Err(e) => Err(e),
        };
    let p = reply->Ok_0;
    lemma_dpi_pair(p, dpi_pair_of(p));
    assert(feature_call(device, FEATURE_ADJUSTABLE_DPI, 2, seq![0u8], ev.skip(k), Ok::<Seq<u8>, HidppError>(p)));
}

// ── Battery ──

/// Level law: the UnifiedBattery level is the highest flag set in the level
/// mask (byte 1 of the GetStatus reply): 8 Full, 4 Good, 2 Low, 1 Critical,
/// none Empty. The percentage is byte 0, and status 0 is discharging.
pub proof fn lemma_unified_battery_level(p: Seq<u8>, info: BatteryInfo)
    requires
        info == unified_battery_info(p),
    ensures
        info.percentage == Some(byte_at(p, 0)),
        (info.level == BatteryLevel::Full) <==> byte_at(p, 1) % 16 >= 8,
        (info.level == BatteryLevel::Good) <==> 4 <= byte_at(p, 1) % 16 < 8,
        (info.level == BatteryLevel::Low) <==> 2 <= byte_at(p, 1) % 16 < 4,
        (info.level == BatteryLevel::Critical) <==> byte_at(p, 1) % 16 == 1,
        (info.level == BatteryLevel::Empty) <==> byte_at(p, 1) % 16 == 0,
        byte_at(p, 2) == 0 ==> info.status == ChargingStatus::Discharging,
{
    let m = byte_at(p, 1);
    assert((m & 0x08u8 != 0) <==> m % 16 >= 8) by (bit_vector);
    assert((m & 0x08u8 == 0 && m & 0x04u8 != 0) <==> (4 <= m % 16 && m % 16 < 8)) by (bit_vector);
    assert((m & 0x08u8 == 0 && m & 0x04u8 == 0 && m & 0x02u8 != 0) <==> (2 <= m % 16 && m % 16 < 4)) by (bit_vector);
    assert((m & 0x08u8 == 0 && m & 0x04u8 == 0 && m & 0x02u8 == 0 && m & 0x01u8 != 0) <==> m % 16 == 1) by (bit_vector);
    assert((m & 0x08u8 == 0 && m & 0x04u8 == 0 && m & 0x02u8 == 0 && m & 0x01u8 == 0) <==> m % 16 == 0) by (bit_vector);
}

/// The UnifiedBattery read gives the level of its GetStatus reply's mask as
/// the level law says.
pub proof fn lemma_unified_battery_read_level(device: u8, ev: Seq<TransportEvent>, info: BatteryInfo)
    requires
        unified_battery_exchange(device, ev, Ok(info)),
    ensures
        exists|p: Seq<u8>|
            #![trigger feature_call(device, FEATURE_UNIFIED_BATTERY, 1, seq![], ev, Ok::<Seq<u8>, HidppError>(p))]
            feature_call(device, FEATURE_UNIFIED_BATTERY, 1, seq![], ev, Ok::<Seq<u8>, HidppError>(p))
                && info.percentage == Some(byte_at(p, 0)) && ((info.level == BatteryLevel::Full) <==> byte_at(p, 1) % 16
                >= 8) && ((info.level == BatteryLevel::Good) <==> 4 <= byte_at(p, 1) % 16 < 8) && ((info.level
                == BatteryLevel::Low) <==> 2 <= byte_at(p, 1) % 16 < 4) && ((info.level == BatteryLevel::Critical)
                <==> byte_at(p, 1) % 16 == 1) && ((info.level == BatteryLevel::Empty) <==> byte_at(p, 1) % 16 == 0),
{
    let reply = choose|reply: Result<Seq<u8>, HidppError>|
        #[trigger] feature_call(device, FEATURE_UNIFIED_BATTERY, 1, seq![], ev, reply) && Ok::<BatteryInfo, HidppError>(info)
            == match reply {
            Ok(p) => Ok::<BatteryInfo, HidppError>(unified_battery_info(p)),
            Err(e) => Err(e),
        };
    let p = reply->Ok_0;
    lemma_unified_battery_level(p, info);
}

// ── Controls ──

/// Control law: a control decoded from its getControlInfo and
/// getControlMapping replies has as ID the info's bytes 0-1 big-endian, as
/// mapping the mapping's bytes 3-4 big-endian, and is remappable exactly when
/// bit 6 (0x40) of the info's byte 4 is set.
pub proof fn lemma_control_decoding(c: ReprogControl, info: Seq<u8>, mapping: Seq<u8>)
    requires
        reprog_control_of(c, info, mapping),
    ensures
        c.cid as int == byte_at(info, 0) as int * 256 + byte_at(info, 1) as int,
        c.mapped_to as int == byte_at(mapping, 3) as int * 256 + byte_at(mapping, 4) as int,
        c.is_remappable <==> (byte_at(info, 4) / 64) % 2 == 1,
{
    let b = byte_at(info, 4);
    assert((b & 0x40u8 != 0) <==> (b / 64) % 2 == 1) by (bit_vector);
}

/// Control fields law: the task ID is the info's bytes 2-3 big-endian, the
/// flags its byte 8 (high) with byte 4 (low), the position, group and group
/// mask its bytes 5, 6 and 7.
pub proof fn lemma_control_fields(c: ReprogControl, info: Seq<u8>, mapping: Seq<u8>)
    requires
        reprog_control_of(c, info, mapping),
    ensures
        c.task_id as int == byte_at(info, 2) as int * 256 + byte_at(info, 3) as int,
        c.flags as int == byte_at(info, 8) as int * 256 + byte_at(info, 4) as int,
        c.position == byte_at(info, 5),
        c.group == byte_at(info, 6),
        c.group_mask == byte_at(info, 7),
{
}

// ── Other readings ──

/// UnifiedBattery status law: status byte 0 is discharging, 1 recharging,
/// 2 and 3 full, 6 slow recharge, any other unknown.
pub proof fn lemma_unified_battery_status(p: Seq<u8>, info: BatteryInfo)
    requires
        info == unified_battery_info(p),
    ensures
        (info.status == ChargingStatus::Discharging) <==> byte_at(p, 2) == 0,
        (info.status == ChargingStatus::Recharging) <==> byte_at(p, 2) == 1,
        (info.status == ChargingStatus::Full) <==> (byte_at(p, 2) == 2 || byte_at(p, 2) == 3),
        (info.status == ChargingStatus::SlowRecharge) <==> byte_at(p, 2) == 6,
        (info.status == ChargingStatus::Unknown) <==> !(byte_at(p, 2) <= 3 || byte_at(p, 2) == 6),
{
}

/// BatteryStatus law: the level rises with the discharge level (byte 0):
/// Full from 80, Good from 40, Low from 15, Critical above 0, else Empty; the
/// status is the low three bits of byte 2: 0 discharging, 1 recharging, 2 full,
/// else unknown.
pub proof fn lemma_battery_status_reading(p: Seq<u8>, info: BatteryInfo)
    requires
        info == battery_status_info(p),
    ensures
        info.percentage == Some(byte_at(p, 0)),
        (info.level == BatteryLevel::Full) <==> byte_at(p, 0) >= 80,
        (info.level == BatteryLevel::Good) <==> 40 <= byte_at(p, 0) < 80,
        (info.level == BatteryLevel::Low) <==> 15 <= byte_at(p, 0) < 40,
        (info.level == BatteryLevel::Critical) <==> 1 <= byte_at(p, 0) < 15,
        (info.level == BatteryLevel::Empty) <==> byte_at(p, 0) == 0,
        (info.status == ChargingStatus::Discharging) <==> byte_at(p, 2) % 8 == 0,
        (info.status == ChargingStatus::Recharging) <==> byte_at(p, 2) % 8 == 1,
        (info.status == ChargingStatus::Full) <==> byte_at(p, 2) % 8 == 2,
        (info.status == ChargingStatus::Unknown) <==> byte_at(p, 2) % 8 >= 3,
{
    let b = byte_at(p, 2);
    assert(b & 0x07u8 == b % 8) by (bit_vector);
}

/// Firmware law: the entity kind is the low nibble of byte 0: 0 main
/// firmware, 1 bootloader, 2 hardware, else other; main firmware and
/// bootloader carry the build as bytes 6-7 big-endian; other entities carry
/// no prefix, no version and build 0.
pub proof fn lemma_firmware_reading(fw: FirmwareInfo, p: Seq<u8>)
    requires
        firmware_info_of(fw, p),
    ensures
        (fw.kind == FirmwareKind::Main) <==> byte_at(p, 0) % 16 == 0,
        (fw.kind == FirmwareKind::Bootloader) <==> byte_at(p, 0) % 16 == 1,
        (fw.kind == FirmwareKind::Hardware) <==> byte_at(p, 0) % 16 == 2,
        (fw.kind == FirmwareKind::Other) <==> byte_at(p, 0) % 16 >= 3,
        byte_at(p, 0) % 16 <= 1 ==> fw.build as int == byte_at(p, 6) as int * 256 + byte_at(p, 7) as int,
        byte_at(p, 0) % 16 >= 2 ==> fw.build == 0 && fw.prefix@.len() == 0,
        byte_at(p, 0) % 16 >= 3 ==> fw.version@.len() == 0,
{
    let b = byte_at(p, 0);
    assert(b & 0x0Fu8 == b % 16) by (bit_vector);
}

/// Hi-res wheel law: the multiplier is capabilities byte 0; invert and
/// ratchet are supported by bits 3 and 2 of capabilities byte 1; hi-res and
/// invert are bits 1 and 2 of the mode byte; ratchet is bit 0 of the ratchet
/// byte.
pub proof fn lemma_hires_wheel_reading(caps: Seq<u8>, mode: Seq<u8>, ratchet: Seq<u8>, info: HiResWheelInfo)
    requires
        info == hires_wheel_info(caps, mode, ratchet),
    ensures
        info.multiplier == byte_at(caps, 0),
        info.has_invert <==> (byte_at(caps, 1) / 8) % 2 == 1,
        info.has_ratchet <==> (byte_at(caps, 1) / 4) % 2 == 1,
        info.hi_res <==> (byte_at(mode, 0) / 2) % 2 == 1,
        info.invert <==> (byte_at(mode, 0) / 4) % 2 == 1,
        info.ratchet <==> byte_at(ratchet, 0) % 2 == 1,
{
    let c = byte_at(caps, 1);
    let m = byte_at(mode, 0);
    let r = byte_at(ratchet, 0);
    assert((c & 0x08u8 != 0) <==> (c / 8) % 2 == 1) by (bit_vector);
    assert((c & 0x04u8 != 0) <==> (c / 4) % 2 == 1) by (bit_vector);
    assert((m & 0x02u8 != 0) <==> (m / 2) % 2 == 1) by (bit_vector);
    assert((m & 0x04u8 != 0) <==> (m / 4) % 2 == 1) by (bit_vector);
    assert((r & 0x01u8 != 0) <==> r % 2 == 1) by (bit_vector);
}

/// SmartShift reading law: a SmartShift read gives the mode as byte 0 and
/// the threshold as byte 1 of the reply it read, and is enhanced exactly
/// when the lookup of the enhanced feature found it.
pub proof fn lemma_smart_shift_reading(device: u8, ev: Seq<TransportEvent>, info: SmartShiftInfo)
    requires
        smart_shift_exchange(device, ev, Ok(info)),
    ensures
        exists|k: int, p: Seq<u8>|
            #![trigger ev.take(k), smart_shift_info(p, info.is_enhanced)]
            0 <= k <= ev.len() && (lookup_result(device, FEATURE_SMART_SHIFT_ENHANCED, ev.take(k)) matches Some(l)
                && (info.is_enhanced <==> l is Ok)) && info.mode == byte_at(p, 0) && info.threshold == byte_at(p, 1)
                && smart_shift_info(p, info.is_enhanced) == info,
{
    let k = choose|k: int|
        #![trigger ev.take(k)]
        0 <= k <= ev.len() && match lookup_result(device, FEATURE_SMART_SHIFT_ENHANCED, ev.take(k)) {
            Some(Ok(fi)) => call_result(device, (fi, 1u8, seq![]), ev.skip(k)) matches Some(reply) && Ok::<SmartShiftInfo, HidppError>(info) == match reply {
                Ok(p) => Ok::<SmartShiftInfo, HidppError>(smart_shift_info(p, true)),
                Err(e) => Err(e),
            },
            Some(Err(HidppError::FeatureNotFound { .. })) => exists|reply: Result<Seq<u8>, HidppError>|
                #![trigger feature_call(device, FEATURE_SMART_SHIFT, 0, seq![], ev.skip(k), reply)]
                feature_call(device, FEATURE_SMART_SHIFT, 0, seq![], ev.skip(k), reply) && Ok::<SmartShiftInfo, HidppError>(info) == match reply {
                    Ok(p) => Ok::<SmartShiftInfo, HidppError>(smart_shift_info(p, false)),
                    Err(e) => Err(e),
                },
            Some(Err(e)) => k == ev.len() && Ok::<SmartShiftInfo, HidppError>(info) == Err::<SmartShiftInfo, HidppError>(e),
            None => false,
        };
    match lookup_result(device, FEATURE_SMART_SHIFT_ENHANCED, ev.take(k)) {
        Some(Ok(fi)) => {
            let p = call_result(device, (fi, 1u8, seq![]), ev.skip(k))->Some_0->Ok_0;
            assert(smart_shift_info(p, info.is_enhanced) == info);
        },
        _ => {
            let reply = choose|reply: Result<Seq<u8>, HidppError>|
                #![trigger feature_call(device, FEATURE_SMART_SHIFT, 0, seq![], ev.skip(k), reply)]
                feature_call(device, FEATURE_SMART_SHIFT, 0, seq![], ev.skip(k), reply) && Ok::<SmartShiftInfo, HidppError>(info) == match reply {
                    Ok(p) => Ok::<SmartShiftInfo, HidppError>(smart_shift_info(p, false)),
                    Err(e) => Err(e),
                };
            let p = reply->Ok_0;
            assert(smart_shift_info(p, info.is_enhanced) == info);
        },
    }
}

/// Host law: every frame `change_host(host)` writes, other than the feature
/// lookup at index 0, is ChangeHost's SetCurrentHost (function 0) with the
/// host index as its first parameter.
pub proof fn lemma_change_host_writes(device: u8, host: u8, ev: Seq<TransportEvent>, r: Result<(), HidppError>)
    requires
        setter_exchange(device, FEATURE_CHANGE_HOST, 0, seq![host], ev, r),
    ensures
        forall|j: int|
            0 <= j < ev.len() ==> (#[trigger] ev[j] matches TransportEvent::Write(w, _) ==> w[2] != 0 ==> w[4] == host
                && w[3] >> 4u8 == 0),
{
    let reply = choose|reply: Result<Seq<u8>, HidppError>|
        #[trigger] feature_call(device, FEATURE_CHANGE_HOST, 0, seq![host], ev, reply) && r == match reply {
            Ok(_) => Ok::<(), HidppError>(()),
            Err(e) => Err(e),
        };
    lemma_feature_call_frames(device, FEATURE_CHANGE_HOST, 0, seq![host], ev, reply);
    lemma_long_request_frame(device, 0, 0, lookup_call(FEATURE_CHANGE_HOST).2);
    assert forall|j: int| 0 <= j < ev.len() implies (#[trigger] ev[j] matches TransportEvent::Write(w, _) ==> w[2] != 0
        ==> w[4] == host && w[3] >> 4u8 == 0) by {
        if let TransportEvent::Write(w, _) = ev[j] {
            if w[2] != 0 {
                lemma_frame_params(device, w[2], 0, seq![host], 0);
            }
        }
    }
}

} // verus!
