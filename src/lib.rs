use vstd::prelude::*;

pub mod assoc;
pub mod params;
pub mod state;
pub mod condition;
pub mod choice;
pub mod action;
pub mod midi;
pub mod controls;
pub mod device;
pub mod profile;
pub mod sync;
pub mod registry;
pub mod controller;
pub mod reconnect;

use crate::controls::KeyState;
use crate::state::StateValue;

verus! {

/// The number of logical units in one whole: normalized control values run
/// from `0` to `UNIT`, and numeric parameter values are kept in these units.
pub const UNIT: i64 = 1_000_000;

/// An event for the controller, from a device or from the remote application.
#[derive(PartialEq, Eq, Debug)]
pub enum ControlMessage {
    Disconnect,
    Reset,
    /// A continuous layer reported `raw`, which stands for the normalized
    /// `value`.
    ContinuousChange { device_id: String, control: String, layer: String, value: i64, raw: u8 },
    KeyChange { device_id: String, control: String, layer: String, state: KeyState },
    StateChange { values: Vec<StateValue> },
}

} // verus!
