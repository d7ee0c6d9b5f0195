//! State machine for a 5x5 illuminated MQTT keypad.
//!
//! The library tracks the logical state of 25 keys, computes the RGB color
//! each key should display, reacts to physical press/release events and to
//! remote control commands, and serializes the whole grid into a fixed
//! binary payload.  All side effects (MQTT publishes) are returned to the
//! caller as plain requests, so the whole core is verified.

pub mod action;
pub mod cli;
pub mod config;
pub mod decode;
pub mod keypad;
pub mod konst;
pub mod util;
