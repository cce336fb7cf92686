//! Sensor and fan-control primitives for a server baseboard management
//! interface.
//!
//! The crate is split in two layers, composed by dependency injection:
//! an executor runs one external management command and hands back raw
//! text, while the controller turns that text into domain values (a
//! filtered fan/temperature report, a CPU temperature) and translates a
//! logical fan-speed request into the raw byte commands the hardware
//! expects.

pub mod error;
pub mod hex;
pub mod ipmi;
pub mod sensor;
pub mod text;
