use std::collections::HashMap;
use vstd::prelude::*;

use crate::error::HidppError;
use crate::features::{
    hires_mode_bits, ratchet_params, remap_params, set_dpi_params, set_smart_shift_exchange,
    setter_exchange, FEATURE_ADJUSTABLE_DPI, FEATURE_HIRES_WHEEL, FEATURE_REPROG_CONTROLS_V4,
};
use crate::transport::{added, grew, lemma_grew_chain, lemma_grew_refl, FeatureAccess, HidTransport, TransportEvent};

verus! {

/// Per-device saved settings, keyed by device product_name.
#[derive(Debug, Clone)]
pub struct DeviceSettingsConfig {
    pub dpi: Option<u16>,
    pub smart_shift_mode: Option<u8>,
    pub smart_shift_threshold: Option<u8>,
    pub hires_hi_res: Option<bool>,
    pub hires_invert: Option<bool>,
    pub hires_ratchet: Option<bool>,
    pub button_remaps: Vec<ButtonRemap>,
}

#[derive(Debug, Clone, Copy, PartialEq, Eq, Structural)]
pub struct ButtonRemap {
    pub cid: u16,
    pub remap_to: u16,
}

/// Top-level config file structure.
#[derive(Debug, Clone)]
pub struct AppConfig {
    pub device: HashMap<String, DeviceSettingsConfig>,
}

impl Default for DeviceSettingsConfig {
    fn default() -> (r: Self)
        ensures
            r.dpi is None,
            r.smart_shift_mode is None,
            r.smart_shift_threshold is None,
            r.hires_hi_res is None,
            r.hires_invert is None,
            r.hires_ratchet is None,
            r.button_remaps@ == Seq::<ButtonRemap>::empty(),
    {
        DeviceSettingsConfig {
            dpi: None,
            smart_shift_mode: None,
            smart_shift_threshold: None,
            hires_hi_res: None,
            hires_invert: None,
            hires_ratchet: None,
            button_remaps: Vec::new(),
        }
    }
}

impl Default for AppConfig {
    fn default() -> (r: Self)
        ensures
            r.device@ == Map::<String, DeviceSettingsConfig>::empty(),
    {
        AppConfig { device: HashMap::new() }
    }
}

/// One change that saved settings ask of a device.
#[derive(Debug, Clone, Copy, PartialEq, Eq, Structural)]
pub enum SettingAction {
    SetDpi(u16),
    SetSmartShift { mode: u8, threshold: u8 },
    SetHiResMode { hi_res: bool, invert: bool },
    SetHiResRatchet(bool),
    RemapButton { cid: u16, remap_to: u16 },
}

/// The remaps of saved settings as actions, in order.
pub open spec fn remap_actions(remaps: Seq<ButtonRemap>) -> Seq<SettingAction> {
    remaps.map_values(|r: ButtonRemap| SettingAction::RemapButton { cid: r.cid, remap_to: r.remap_to })
}

/// The changes saved settings ask for, in the order they are applied: the
/// DPI; SmartShift when both mode and threshold are saved; the wheel mode
/// when both hi-res and invert are saved; the ratchet; then each button remap.
pub open spec fn settings_actions(s: DeviceSettingsConfig) -> Seq<SettingAction> {
    let dpi: Seq<SettingAction> = match s.dpi {
        Some(dpi) => seq![SettingAction::SetDpi(dpi)],
        None => Seq::empty(),
    };
    let smart_shift: Seq<SettingAction> = match (s.smart_shift_mode, s.smart_shift_threshold) {
        (Some(mode), Some(threshold)) => seq![SettingAction::SetSmartShift { mode, threshold }],
        _ => Seq::empty(),
    };
    let wheel: Seq<SettingAction> = match (s.hires_hi_res, s.hires_invert) {
        (Some(hi_res), Some(invert)) => seq![SettingAction::SetHiResMode { hi_res, invert }],
        _ => Seq::empty(),
    };
    let ratchet: Seq<SettingAction> = match s.hires_ratchet {
        Some(r) => seq![SettingAction::SetHiResRatchet(r)],
        None => Seq::empty(),
    };
    dpi + smart_shift + wheel + ratchet + remap_actions(s.button_remaps@)
}

/// Lists the changes that saved settings ask of a device.
pub fn setting_actions(settings: &DeviceSettingsConfig) -> (actions: Vec<SettingAction>)
    ensures
        actions@ == settings_actions(*settings),
{
    let mut actions: Vec<SettingAction> = Vec::new();
    if let Some(dpi) = settings.dpi {
        actions.push(SettingAction::SetDpi(dpi));
    }
    if let (Some(mode), Some(threshold)) = (settings.smart_shift_mode, settings.smart_shift_threshold) {
        actions.push(SettingAction::SetSmartShift { mode, threshold });
    }
    if let (Some(hi_res), Some(invert)) = (settings.hires_hi_res, settings.hires_invert) {
        actions.push(SettingAction::SetHiResMode { hi_res, invert });
    }
    if let Some(ratchet) = settings.hires_ratchet {
        actions.push(SettingAction::SetHiResRatchet(ratchet));
    }
    let ghost fixed = actions@;
    let mut i: usize = 0;
    while i < settings.button_remaps.len()
        invariant
            i <= settings.button_remaps@.len(),
            actions@ == fixed + remap_actions(settings.button_remaps@.take(i as int)),
        decreases settings.button_remaps@.len() - i,
    {
        let remap = settings.button_remaps[i];
        actions.push(SettingAction::RemapButton { cid: remap.cid, remap_to: remap.remap_to });
        proof {
            assert(remap_actions(settings.button_remaps@.take(i + 1)) =~= remap_actions(
                settings.button_remaps@.take(i as int),
            ).push(SettingAction::RemapButton { cid: remap.cid, remap_to: remap.remap_to }));
        }
        i = i + 1;
    }
    assert(settings.button_remaps@.take(settings.button_remaps@.len() as int) =~= settings.button_remaps@);
    assert(actions@ =~= settings_actions(*settings));
    actions
}

/// The exchange of one settings change, giving `r`.
#[verifier::opaque]
pub open spec fn action_exchange(device: u8, action: SettingAction, ev: Seq<TransportEvent>, r: Result<(), HidppError>) -> bool {
    match action {
        SettingAction::SetDpi(dpi) => setter_exchange(device, FEATURE_ADJUSTABLE_DPI, 3, set_dpi_params(dpi), ev, r),
        SettingAction::SetSmartShift { mode, threshold } => set_smart_shift_exchange(device, mode, threshold, ev, r),
        SettingAction::SetHiResMode { hi_res, invert } => setter_exchange(
            device,
            FEATURE_HIRES_WHEEL,
            2,
            seq![hires_mode_bits(hi_res, invert)],
            ev,
            r,
        ),
        SettingAction::SetHiResRatchet(ratchet) => setter_exchange(device, FEATURE_HIRES_WHEEL, 4, ratchet_params(ratchet), ev, r),
        SettingAction::RemapButton { cid, remap_to } => setter_exchange(
            device,
            FEATURE_REPROG_CONTROLS_V4,
            3,
            remap_params(cid, remap_to),
            ev,
            r,
        ),
    }
}

/// `cuts` splits `ev` into the exchanges of `actions`, in order, with results `results`.
pub open spec fn action_cuts(
    device: u8,
    actions: Seq<SettingAction>,
    results: Seq<Result<(), HidppError>>,
    ev: Seq<TransportEvent>,
    cuts: Seq<int>,
) -> bool {
    &&& results.len() == actions.len()
    &&& cuts.len() == actions.len() + 1
    &&& cuts[0] == 0
    &&& cuts[actions.len() as int] == ev.len()
    &&& forall|i: int| 0 <= i < actions.len() ==> 0 <= #[trigger] cuts[i] && cuts[i] <= cuts[i + 1] && cuts[i + 1] <= ev.len()
    &&& forall|i: int|
        0 <= i < actions.len() ==> action_exchange(device, #[trigger] actions[i], ev.subrange(cuts[i], cuts[i + 1]), results[i])
}

/// `ev` is the exchanges of `actions`, in order, with results `results`.
pub open spec fn actions_exchange(
    device: u8,
    actions: Seq<SettingAction>,
    results: Seq<Result<(), HidppError>>,
    ev: Seq<TransportEvent>,
) -> bool {
    exists|cuts: Seq<int>| #[trigger] action_cuts(device, actions, results, ev, cuts)
}

/// One more change extends the exchanges of a run of changes.
pub proof fn lemma_actions_push(
    device: u8,
    actions: Seq<SettingAction>,
    results: Seq<Result<(), HidppError>>,
    ev: Seq<TransportEvent>,
    action: SettingAction,
    r: Result<(), HidppError>,
    ev2: Seq<TransportEvent>,
)
    requires
        actions_exchange(device, actions, results, ev),
        action_exchange(device, action, ev2, r),
    ensures
        actions_exchange(device, actions.push(action), results.push(r), ev + ev2),
{
    let cuts = choose|cuts: Seq<int>| action_cuts(device, actions, results, ev, cuts);
    let all = ev + ev2;
    let a2 = actions.push(action);
    let r2 = results.push(r);
    let cuts2 = cuts.push(all.len() as int);
    assert forall|i: int| 0 <= i < a2.len() implies 0 <= #[trigger] cuts2[i] && cuts2[i] <= cuts2[i + 1] && cuts2[i + 1] <= all.len() by {
        if i < actions.len() {
            assert(0 <= cuts[i] && cuts[i] <= cuts[i + 1] && cuts[i + 1] <= ev.len());
        }
    }
    assert forall|i: int| 0 <= i < a2.len() implies action_exchange(device, #[trigger] a2[i], all.subrange(cuts2[i], cuts2[i + 1]), r2[i]) by {
        if i < actions.len() {
            assert(a2[i] == actions[i]);
            assert(r2[i] == results[i]);
            assert(0 <= cuts[i] && cuts[i] <= cuts[i + 1] && cuts[i + 1] <= ev.len());
            assert(action_exchange(device, actions[i], ev.subrange(cuts[i], cuts[i + 1]), results[i]));
            assert(all.subrange(cuts2[i], cuts2[i + 1]) =~= ev.subrange(cuts[i], cuts[i + 1]));
        } else {
            assert(all.subrange(cuts2[i], cuts2[i + 1]) =~= ev2);
        }
    }
    assert(r2.len() == a2.len());
    assert(cuts2.len() == a2.len() + 1);
    assert(cuts2[0] == 0);
    assert(cuts2[a2.len() as int] == all.len());
    assert(action_cuts(device, a2, r2, all, cuts2));
}

/// The failed actions with their errors, in order.
pub open spec fn failures(actions: Seq<SettingAction>, results: Seq<Result<(), HidppError>>) -> Seq<
    (SettingAction, HidppError),
>
    decreases actions.len(),
{
    if actions.len() == 0 {
        Seq::empty()
    } else {
        let earlier = failures(actions.drop_last(), results.take(actions.len() - 1));
        match results[actions.len() - 1] {
            Ok(_) => earlier,
            Err(e) => earlier.push((actions.last(), e)),
        }
    }
}

impl<T: HidTransport> FeatureAccess<T> {
    /// Performs one settings change on the device.
    pub fn perform(&mut self, action: SettingAction) -> (r: Result<(), HidppError>)
        ensures
            grew(*old(self), *final(self)),
            action_exchange(old(self).device(), action, added(*old(self), *final(self)), r),
    {
        reveal(action_exchange);
        match action {
            SettingAction::SetDpi(dpi) => self.set_dpi(dpi),
            SettingAction::SetSmartShift { mode, threshold } => self.set_smart_shift(mode, threshold),
            SettingAction::SetHiResMode { hi_res, invert } => self.set_hires_wheel_mode(hi_res, invert),
            SettingAction::SetHiResRatchet(ratchet) => self.set_hires_wheel_ratchet(ratchet),
            SettingAction::RemapButton { cid, remap_to } => self.set_reprog_control_mapping(cid, remap_to),
        }
    }
}

/// Apply saved settings to a connected device. Every change is attempted; a
/// failed change does not stop the others. Returns the changes that failed,
/// in order, with their errors.
pub fn apply_saved_settings<T: HidTransport>(
    access: &mut FeatureAccess<T>,
    settings: &DeviceSettingsConfig,
) -> (failed: Vec<(SettingAction, HidppError)>)
    ensures
        grew(*old(access), *final(access)),
        exists|results: Seq<Result<(), HidppError>>|
            #[trigger] actions_exchange(
                old(access).device(),
                settings_actions(*settings),
                results,
                added(*old(access), *final(access)),
            ) && failed@ == failures(settings_actions(*settings), results),
{
    let ghost start = *access;
    let ghost d = access.device();
    let actions = setting_actions(settings);
    let mut failed: Vec<(SettingAction, HidppError)> = Vec::new();
    let ghost mut results: Seq<Result<(), HidppError>> = Seq::empty();
    proof {
        lemma_grew_refl(start);
        assert(actions@.take(0) =~= Seq::<SettingAction>::empty());
        assert(action_cuts(d, Seq::empty(), Seq::empty(), Seq::empty(), seq![0int]));
    }
    let mut i: usize = 0;
    while i < actions.len()
        invariant
            i <= actions@.len(),
            actions@ == settings_actions(*settings),
            start == *old(access),
            d == start.device(),
            grew(start, *access),
            results.len() == i,
            actions_exchange(d, actions@.take(i as int), results, added(start, *access)),
            failed@ == failures(actions@.take(i as int), results),
        decreases actions@.len() - i,
    {
        let action = actions[i];
        let ghost before = *access;
        let outcome = access.perform(action);
        let ghost res = outcome;
        proof {
            lemma_grew_chain(start, before, *access);
            lemma_actions_push(d, actions@.take(i as int), results, added(start, before), action, res, added(before, *access));
            assert(actions@.take(i as int).push(action) =~= actions@.take(i + 1));
            assert(actions@.take(i + 1).drop_last() =~= actions@.take(i as int));
            assert(results.push(res).take(i as int) =~= results);
        }
        match outcome {
            Ok(()) => {},
            Err(e) => {
                failed.push((action, e));
            },
        }
        proof {
            results = results.push(res);
        }
        i = i + 1;
    }
    assert(actions@.take(actions@.len() as int) =~= actions@);
    failed
}

} // verus!
