//! Power-state decisions. The battery sensor itself is read by the
//! surrounding runner; the library decides what a reading means: whether the
//! machine counts as plugged in, and what charge to report when no battery
//! exists.

use vstd::prelude::*;

verus! {

/// The charging state a battery sensor reports.
#[derive(Clone, Copy, Debug, PartialEq, Eq, Structural)]
pub enum ChargeState {
    Unknown,
    Charging,
    Discharging,
    Empty,
    Full,
}

/// Whether a reported state means the machine runs on external power: it is
/// charging, or it is already full.
pub open spec fn spec_plugged(s: ChargeState) -> bool {
    s is Charging || s is Full
}

/// Decides whether one sensor state counts as plugged in.
pub fn plugged_from_state(state: ChargeState) -> (r: bool)
    ensures
        r == spec_plugged(state),
{
    match state {
        ChargeState::Charging => true,
        ChargeState::Full => true,
        _ => false,
    }
}

/// Whether the machine counts as plugged in for one sensor reading: the state
/// decides when a battery is present, and a machine without one counts as not
/// plugged.
pub fn is_plugged(reading: Option<ChargeState>) -> (r: bool)
    ensures
        reading matches Some(s) ==> r == spec_plugged(s),
        reading is None ==> r == false,
{
    match reading {
        Some(s) => plugged_from_state(s),
        None => false,
    }
}

/// The charge percentage for one sensor reading: the sensor's value when a
/// battery is present, and 100 on a machine without one.
pub fn get_battery_percentage(reading: Option<u8>) -> (p: u8)
    ensures
        reading matches Some(v) ==> p == v,
        reading is None ==> p == 100,
{
    match reading {
        Some(v) => v,
        None => 100,
    }
}

} // verus!
