//! Panel-wide configuration constants.

use vstd::prelude::*;

verus! {

/// When true, alarm reports go out as SMS text; when false, as a DTMF call.
pub const USE_SMS: bool = false;

/// A sensor loop counts as intruded while its ADC reading lies strictly
/// between these two thresholds.
pub const LOW_INTRUSION_THRESHOLD: u16 = 1000;

/// Upper bound of the intrusion band; see `LOW_INTRUSION_THRESHOLD`.
pub const HIGH_INTRUSION_THRESHOLD: u16 = 1500;

/// Number of sensor loops; one boolean per loop in a snapshot.
pub const ALARMS_CHANNELS_AMOUNT: usize = 3;

/// Depth of the sliding history window.  Hard constraint: the compact code
/// packs one bit per row into a single ASCII digit, so the depth must stay at
/// most 3 (largest accumulator value 7); widening the window would need a
/// wider character set.
pub const ALARMS_STACK_DEPTH: usize = 3;

/// Length of the compact alarm code: one character per channel.
pub const ALARMS_MESSAGE_STRING_LENGTH: usize = 3;

/// Keep-alive period, in report ticks: with no sensor change, a report is
/// still sent once every this many ticks.
pub const ALIVE_PERIOD_MINUTES: i32 = 120;

/// Seconds to wait after power-up before talking to the modem.
pub const INIT_SIM800_DELAY_SECONDS: u32 = 6;

/// Hours between unprompted clock refreshes from the network.
pub const SYSTEM_MONITOR_PERIOD_HOURS: u32 = 12;

/// Fixed prefix of an outgoing alarm SMS body.
pub const SMS_PREFIX: &'static str = "PPP";

/// Delimiter between the fields of an alarm SMS body; an incoming body is
/// read up to its first occurrence.
pub const SMS_DIVIDER: &'static str = ";";

/// Number of DTMF digits that make up one received alarm code.
pub const DTMF_PACKET_LENGTH: usize = 3;

/// A stored phone number must be shorter than this many bytes.
pub const MAX_PHONE_LENGTH: usize = 16;

/// Capacity of the modem line accumulation buffer, in bytes.
pub const SIM800_LINE_BUFFER_SIZE: usize = 64;

} // verus!
