//! The UPS telemetry profile.

use vstd::prelude::*;

verus! {

/// The UPS controller.
pub struct UpsController;

/// The UPS state: mains power, battery level, the voltage in tenths of a
/// volt, and the minutes the battery lasts.
#[derive(Debug, Clone, Copy, PartialEq, Eq, Structural)]
pub struct UpsStatus {
    pub ac_connected: bool,
    pub battery_pct: u8,
    pub ups_voltage_decivolts: u32,
    pub backup_time_left_min: u32,
}

impl UpsController {
    /// The reading the controller reports: during a (simulated) blackout, on
    /// battery at 18 % and 11.8 V with 6 minutes left; otherwise on mains,
    /// full, at 14.2 V with 180 minutes.
    pub fn read_ups_telemetry(blackout: bool) -> (r: UpsStatus)
        ensures
            blackout ==> r == (UpsStatus {
                ac_connected: false,
                battery_pct: 18,
                ups_voltage_decivolts: 118,
                backup_time_left_min: 6,
            }),
            !blackout ==> r == (UpsStatus {
                ac_connected: true,
                battery_pct: 100,
                ups_voltage_decivolts: 142,
                backup_time_left_min: 180,
            }),
    {
        if blackout {
            UpsStatus { ac_connected: false, battery_pct: 18, ups_voltage_decivolts: 118, backup_time_left_min: 6 }
        } else {
            UpsStatus { ac_connected: true, battery_pct: 100, ups_voltage_decivolts: 142, backup_time_left_min: 180 }
        }
    }
}

} // verus!
