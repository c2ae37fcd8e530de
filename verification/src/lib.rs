//! Verified control core for a battery-backed intrusion-alarm panel.
//!
//! The panel senses discrete sensor loops, reports their recent history over a
//! cellular modem (voice-call DTMF tones or SMS), and replays remotely
//! received alarm patterns onto relay outputs.  This crate holds the logic of
//! that firmware: the modem line transport and response/event classifier, the
//! bounded alarm-history tracker with its compact wire encoding, the
//! single-slot command/response correlator, and the reporting orchestrator's
//! decision functions.  Hardware access, timers and the async executor live in
//! the surrounding application; they hand plain values in and carry plain
//! values out.

pub mod alarms;
pub mod constants;
pub mod custom_strings;
pub mod date_converter;
pub mod gsm_time_converter;
pub mod logic;
pub mod phone_book;
pub mod sim800;
