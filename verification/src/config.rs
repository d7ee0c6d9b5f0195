//! Configuration data for the keypad.
//!
//! These types are plain values: discovering and parsing the configuration
//! file is the surrounding application's concern.  The library only consumes
//! a fully built [`Config`].

use vstd::prelude::*;

verus! {

/// Top-level configuration: broker location, topic prefix, publish interval
/// and the per-key records.
#[derive(Clone, Debug)]
pub struct Config {
    pub mqtt_broker_addr: String,
    pub mqtt_broker_port: u16,
    pub mqtt_subscribe_prefix: String,
    /// Interval between periodic publishes, in milliseconds.
    pub interval_duration: Option<u64>,
    pub keypad: KeypadConfig,
}

/// One configuration record per key of the 5x5 grid, named `pad_<row>_<col>`.
#[derive(Clone, Debug)]
pub struct KeypadConfig {
    pub pad_0_0: PadConfig,
    pub pad_0_1: PadConfig,
    pub pad_0_2: PadConfig,
    pub pad_0_3: PadConfig,
    pub pad_0_4: PadConfig,
    pub pad_1_0: PadConfig,
    pub pad_1_1: PadConfig,
    pub pad_1_2: PadConfig,
    pub pad_1_3: PadConfig,
    pub pad_1_4: PadConfig,
    pub pad_2_0: PadConfig,
    pub pad_2_1: PadConfig,
    pub pad_2_2: PadConfig,
    pub pad_2_3: PadConfig,
    pub pad_2_4: PadConfig,
    pub pad_3_0: PadConfig,
    pub pad_3_1: PadConfig,
    pub pad_3_2: PadConfig,
    pub pad_3_3: PadConfig,
    pub pad_3_4: PadConfig,
    pub pad_4_0: PadConfig,
    pub pad_4_1: PadConfig,
    pub pad_4_2: PadConfig,
    pub pad_4_3: PadConfig,
    pub pad_4_4: PadConfig,
}

impl KeypadConfig {
    /// The record for linear key index `i` in row-major order:
    /// index `i` addresses row `i / 5`, column `i % 5`.
    pub open spec fn pad_at(self, i: int) -> PadConfig {
        if i == 0 {
            self.pad_0_0
        } else if i == 1 {
            self.pad_0_1
        } else if i == 2 {
            self.pad_0_2
        } else if i == 3 {
            self.pad_0_3
        } else if i == 4 {
            self.pad_0_4
        } else if i == 5 {
            self.pad_1_0
        } else if i == 6 {
            self.pad_1_1
        } else if i == 7 {
            self.pad_1_2
        } else if i == 8 {
            self.pad_1_3
        } else if i == 9 {
            self.pad_1_4
        } else if i == 10 {
            self.pad_2_0
        } else if i == 11 {
            self.pad_2_1
        } else if i == 12 {
            self.pad_2_2
        } else if i == 13 {
            self.pad_2_3
        } else if i == 14 {
            self.pad_2_4
        } else if i == 15 {
            self.pad_3_0
        } else if i == 16 {
            self.pad_3_1
        } else if i == 17 {
            self.pad_3_2
        } else if i == 18 {
            self.pad_3_3
        } else if i == 19 {
            self.pad_3_4
        } else if i == 20 {
            self.pad_4_0
        } else if i == 21 {
            self.pad_4_1
        } else if i == 22 {
            self.pad_4_2
        } else if i == 23 {
            self.pad_4_3
        } else {
            self.pad_4_4
        }
    }
}

/// Per-key configuration: the released, pressed and alternative colors, and
/// the action lists fired on a press and on a release.
#[derive(Clone, Debug, PartialEq)]
pub struct PadConfig {
    pub released: [u8; 3],
    pub pressed: [u8; 3],
    pub alternative: [u8; 3],
    pub on_press: Vec<OnPressAction>,
    pub on_release: Vec<OnReleaseAction>,
}

/// A configuration-level description of an action to run when the key is
/// pressed.
#[derive(Clone, Debug, PartialEq)]
pub enum OnPressAction {
    ToggleBlinking,
    ToggleBlinkingAlternativeColor,
    Publish { topic: String, payload: String },
}

/// A configuration-level description of an action to run when the key is
/// released.
#[derive(Clone, Debug, PartialEq)]
pub enum OnReleaseAction {
    Publish { topic: String, payload: String },
}

} // verus!
