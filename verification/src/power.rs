//! The power-state controller's model: one core's governor token and
//! fixed-frequency setting, the swap operations that capture the prior
//! values, and the restore discipline over what was captured.

use vstd::prelude::*;

verus! {

/// A core's power-management settings as the controller sees them.
pub struct PowerSettings {
    /// The governor token, as the governor file holds it.
    pub governor: Vec<u8>,
    /// The fixed-frequency setting in kHz.
    pub freq_khz: u32,
}

/// The mathematical image of the settings.
#[verifier::ext_equal]
pub struct SettingsModel {
    pub governor: Seq<u8>,
    pub freq_khz: u32,
}

impl View for PowerSettings {
    type V = SettingsModel;

    open spec fn view(&self) -> SettingsModel {
        SettingsModel { governor: self.governor@, freq_khz: self.freq_khz }
    }
}

/// Swapping the governor: the new token goes in, the prior one comes out.
pub open spec fn spec_swap_governor(s: SettingsModel, g: Seq<u8>) -> (SettingsModel, Seq<u8>) {
    (SettingsModel { governor: g, freq_khz: s.freq_khz }, s.governor)
}

/// Swapping the fixed frequency: the new value goes in, the prior one out.
pub open spec fn spec_swap_frequency(s: SettingsModel, f: u32) -> (SettingsModel, u32) {
    (SettingsModel { governor: s.governor, freq_khz: f }, s.freq_khz)
}

/// Restoration during teardown: whatever was captured goes back, the
/// frequency first and then the governor; what was never captured is left
/// alone.
pub open spec fn spec_restore(
    s: SettingsModel,
    saved_freq: Option<u32>,
    saved_gov: Option<Seq<u8>>,
) -> SettingsModel {
    let s1 = match saved_freq {
        Some(f) => SettingsModel { governor: s.governor, freq_khz: f },
        None => s,
    };
    match saved_gov {
        Some(g) => SettingsModel { governor: g, freq_khz: s1.freq_khz },
        None => s1,
    }
}

/// Swaps the governor token, returning the prior one.
pub fn swap_governor(s: PowerSettings, new_gov: Vec<u8>) -> (r: (PowerSettings, Vec<u8>))
    ensures
        r.0@ == spec_swap_governor(s@, new_gov@).0,
        r.1@ == spec_swap_governor(s@, new_gov@).1,
{
    let PowerSettings { governor, freq_khz } = s;
    (PowerSettings { governor: new_gov, freq_khz }, governor)
}

/// Swaps the fixed-frequency setting, returning the prior value.
pub fn swap_frequency(s: PowerSettings, new_khz: u32) -> (r: (PowerSettings, u32))
    ensures
        r.0@ == spec_swap_frequency(s@, new_khz).0,
        r.1@ == spec_swap_frequency(s@, new_khz).1,
{
    let PowerSettings { governor, freq_khz } = s;
    (PowerSettings { governor, freq_khz: new_khz }, freq_khz)
}

/// The view of an optional saved governor token.
pub open spec fn view_opt(o: Option<Vec<u8>>) -> Option<Seq<u8>> {
    match o {
        Some(v) => Some(v@),
        None => None,
    }
}

/// Restores the captured values, frequency first and then governor.
pub fn restore(s: PowerSettings, saved_freq: Option<u32>, saved_gov: Option<Vec<u8>>) -> (r:
    PowerSettings)
    ensures
        r@ == spec_restore(s@, saved_freq, view_opt(saved_gov)),
{
    let mut cur = s;
    if let Some(f) = saved_freq {
        let PowerSettings { governor, freq_khz: _ } = cur;
        cur = PowerSettings { governor, freq_khz: f };
    }
    if let Some(g) = saved_gov {
        let PowerSettings { governor: _, freq_khz } = cur;
        cur = PowerSettings { governor: g, freq_khz };
    }
    cur
}

/// Restoration undoes a full acquisition exactly: after the governor and
/// then the frequency were swapped, restoring the captured frequency and
/// then the captured governor leaves the settings in their pre-run state.
/// A partial acquisition (only the governor captured) restores exactly as
/// far as it reached.
pub proof fn lemma_restore_round_trip(s0: SettingsModel, g: Seq<u8>, f: u32)
    ensures
        ({
            let (s1, old_g) = spec_swap_governor(s0, g);
            let (s2, old_f) = spec_swap_frequency(s1, f);
            spec_restore(s2, Some(old_f), Some(old_g)) == s0
        }),
        ({
            let (s1, old_g) = spec_swap_governor(s0, g);
            spec_restore(s1, None, Some(old_g)) == s0
        }),
{
    let (s1, old_g) = spec_swap_governor(s0, g);
    let (s2, old_f) = spec_swap_frequency(s1, f);
    assert(spec_restore(s2, Some(old_f), Some(old_g)) =~= s0);
    assert(spec_restore(s1, None, Some(old_g)) =~= s0);
}

} // verus!
