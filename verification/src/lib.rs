//! The protocol of Anker power stations over Bluetooth LE, and what a monitor makes of it:
//! framing, encryption, the handshake, telemetry, and the texts and reports that are shown.
//!
//! Everything here computes on plain values. Radio, clock ticks, terminal and network belong to
//! the program around it, which performs the actions that the session decides on and hands back
//! what happened.
pub mod ble;
pub mod cli;
pub mod clock;
pub mod crypto;
pub mod fragments;
pub mod parser;
pub mod protocol;
pub mod report;
pub mod screen;
pub mod session;
pub mod state;
pub mod text;
pub mod trace;
