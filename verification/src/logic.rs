//! Reporting orchestrator: the decision half of the cooperative state
//! machine that ties sensing, reporting, replay, retry and the safety
//! watchdog together.  The surrounding application owns the timers, the
//! locks and the queues; these functions turn state and event into next
//! state and action.

use vstd::prelude::*;
use crate::alarms::{
    spec_export_baseline, spec_export_code, spec_import_window, spec_window_changed, AlarmStack,
};
use crate::constants::{
    ALARMS_CHANNELS_AMOUNT, ALARMS_MESSAGE_STRING_LENGTH, ALARMS_STACK_DEPTH,
    ALIVE_PERIOD_MINUTES, DTMF_PACKET_LENGTH, HIGH_INTRUSION_THRESHOLD, LOW_INTRUSION_THRESHOLD,
    SMS_DIVIDER, SMS_PREFIX, USE_SMS,
};
use crate::custom_strings::{
    extract_before_delimiter, spec_first_match_at, spec_has_sub, string_from_chars,
};
use crate::date_converter::{format_gsm_time, spec_format_gsm_time};
use crate::gsm_time_converter::GsmTime;
use crate::sim800::{ModemCommand, SimEvent};
use vstd::string::StrSliceExecFns;

verus! {

/// Whether an ADC reading counts as an intrusion: strictly inside the
/// configured band.
pub fn intrusion_active(sample: u16) -> (r: bool)
    ensures
        r == (LOW_INTRUSION_THRESHOLD < sample && sample < HIGH_INTRUSION_THRESHOLD),
{
    sample > LOW_INTRUSION_THRESHOLD && sample < HIGH_INTRUSION_THRESHOLD
}

/// A code padded or cut to exactly one character per channel, with NUL
/// standing in for missing characters.
pub open spec fn spec_pad_code(s: Seq<char>) -> Seq<char> {
    Seq::new(
        ALARMS_MESSAGE_STRING_LENGTH as nat,
        |i: int|
            if i < s.len() {
                s[i]
            } else {
                '\0'
            },
    )
}

/// Decode a received alarm code into the full matrix of output rows to
/// replay, oldest row first; short codes are NUL-padded before decoding.
pub fn decode_alarm_rows(code: &str) -> (r: [[bool; ALARMS_CHANNELS_AMOUNT]; ALARMS_STACK_DEPTH])
    ensures
        r.deep_view() =~~= spec_import_window(spec_pad_code(code@)),
{
    let n = code.unicode_len();
    let mut chars: [char; ALARMS_MESSAGE_STRING_LENGTH] = ['\0'; ALARMS_MESSAGE_STRING_LENGTH];
    let mut i: usize = 0;
    while i < ALARMS_MESSAGE_STRING_LENGTH && i < n
        invariant
            n == code@.len(),
            i <= ALARMS_MESSAGE_STRING_LENGTH,
            forall|k: int| 0 <= k < i ==> chars[k] == spec_pad_code(code@)[k],
            forall|k: int|
                i <= k < ALARMS_MESSAGE_STRING_LENGTH ==> chars[k] == '\0',
        decreases n - i,
    {
        chars[i] = code.get_char(i);
        i = i + 1;
    }
    proof {
        assert(chars@ =~= spec_pad_code(code@));
    }
    let mut temp = AlarmStack::new();
    temp.import_bits(chars);
    temp.get_stack_view()
}

/// What the orchestrator asks of the application for one inbound event.
#[derive(Debug)]
pub enum EventAction {
    Nothing,
    /// Drive the outputs row by row, holding each row for the dwell
    /// interval, and arm the safety watchdog afterwards.
    ReplayAndArm([[bool; ALARMS_CHANNELS_AMOUNT]; ALARMS_STACK_DEPTH]),
    /// Hand this command to the modem command path.
    Forward(ModemCommand),
    /// Give this clock sample to the RTC collaborator.
    UpdateClock(GsmTime),
}

/// Orchestrator-local state: the DTMF digit accumulator and whether the
/// safety watchdog is armed.
pub struct LogicState {
    dtmf_buffer: Vec<char>,
    watchdog_armed: bool,
}

/// The replay-and-arm part of handling a complete alarm code.
pub open spec fn spec_replay_case(r: EventAction, armed_after: bool, code: Seq<char>) -> bool {
    &&& (r matches EventAction::ReplayAndArm(rows) && rows.deep_view() == spec_import_window(
        spec_pad_code(code),
    ))
    &&& armed_after
}

impl LogicState {
    /// The DTMF digits collected so far towards one alarm code.
    pub closed spec fn dtmf(self) -> Seq<char> {
        self.dtmf_buffer@
    }

    /// Whether the safety watchdog is armed.
    pub closed spec fn armed(self) -> bool {
        self.watchdog_armed
    }

    pub closed spec fn wf(self) -> bool {
        self.dtmf_buffer@.len() <= DTMF_PACKET_LENGTH
    }

    pub fn new() -> (r: Self)
        ensures
            r.wf(),
            r.dtmf() =~= Seq::<char>::empty(),
            !r.armed(),
    {
        LogicState { dtmf_buffer: Vec::new(), watchdog_armed: false }
    }

    /// Dispatch one inbound modem event.  An SMS whose body starts with a
    /// full-length alarm code before the divider is replayed, as is a
    /// DTMF code once its last digit arrives; a call ending discards a
    /// partial code; incoming calls and clock samples are delegated.
    pub fn on_sim_event(&mut self, event: SimEvent) -> (r: EventAction)
        requires
            old(self).wf(),
        ensures
            final(self).wf(),
            event matches SimEvent::SmsArrived(sms) ==> ({
                let msg = sms.message@;
                &&& (!spec_has_sub(msg, SMS_DIVIDER@) ==> (r is Nothing && *final(self) == *old(self)))
                &&& (spec_has_sub(msg, SMS_DIVIDER@) ==> exists|i: int|
                    {
                        &&& #[trigger] spec_first_match_at(msg, SMS_DIVIDER@, i)
                        &&& (msg.take(i).len() == ALARMS_MESSAGE_STRING_LENGTH ==> (
                        spec_replay_case(r, final(self).armed(), msg.take(i)) && final(self).dtmf()
                            == old(self).dtmf()))
                        &&& (msg.take(i).len() != ALARMS_MESSAGE_STRING_LENGTH ==> (r is Nothing
                            && *final(self) == *old(self)))
                    })
            }),
            event matches SimEvent::DtmfDigit(c) ==> ({
                &&& (old(self).dtmf().len() >= DTMF_PACKET_LENGTH ==> (r is Nothing && *final(self) == *old(self)))
                &&& (old(self).dtmf().len() + 1 < DTMF_PACKET_LENGTH ==> (r is Nothing && final(self).dtmf() == old(self).dtmf().push(c) && final(self).armed() == old(self).armed()))
                &&& ((old(self).dtmf().len() < DTMF_PACKET_LENGTH && old(self).dtmf().len() + 1
                    == DTMF_PACKET_LENGTH) ==> (spec_replay_case(
                    r,
                    final(self).armed(),
                    old(self).dtmf().push(c),
                ) && final(self).dtmf() =~= Seq::<char>::empty()))
            }),
            event is CallEnded ==> (r is Nothing && final(self).dtmf() =~= Seq::<char>::empty()
                && final(self).armed() == old(self).armed()),
            event matches SimEvent::IncomingCall(n) ==> (*final(self) == *old(self) && (r matches
                EventAction::Forward(
                    ModemCommand::AnswerOrRouteIncomingCall(m),
                ) && m@ == n@)),
            event matches SimEvent::CallReportConfirmed(s) ==> (r is Nothing && *final(self)
                == *old(self)),
            event matches SimEvent::ClockSampleArrived(t) ==> (*final(self) == *old(self) && (r
                matches EventAction::UpdateClock(u) && u == t)),
            event is ModemReady ==> (r is Nothing && *final(self) == *old(self)),
    {
        match event {
            SimEvent::SmsArrived(sms) => {
                match extract_before_delimiter(sms.message.as_str(), SMS_DIVIDER) {
                    Some(code) => {
                        if code.unicode_len() == ALARMS_MESSAGE_STRING_LENGTH {
                            let rows = decode_alarm_rows(code);
                            self.watchdog_armed = true;
                            EventAction::ReplayAndArm(rows)
                        } else {
                            EventAction::Nothing
                        }
                    },
                    None => EventAction::Nothing,
                }
            },
            SimEvent::DtmfDigit(c) => {
                if self.dtmf_buffer.len() < DTMF_PACKET_LENGTH {
                    self.dtmf_buffer.push(c);
                    if self.dtmf_buffer.len() == DTMF_PACKET_LENGTH {
                        let mut chars: [char; ALARMS_MESSAGE_STRING_LENGTH] =
                            ['\0'; ALARMS_MESSAGE_STRING_LENGTH];
                        let mut i: usize = 0;
                        while i < DTMF_PACKET_LENGTH
                            invariant
                                self.dtmf_buffer@.len() == DTMF_PACKET_LENGTH,
                                i <= DTMF_PACKET_LENGTH,
                                forall|k: int|
                                    0 <= k < i ==> chars[k] == self.dtmf_buffer@[k],
                            decreases DTMF_PACKET_LENGTH - i,
                        {
                            chars[i] = self.dtmf_buffer[i];
                            i = i + 1;
                        }
                        proof {
                            assert(chars@ =~= spec_pad_code(self.dtmf_buffer@));
                        }
                        let mut temp = AlarmStack::new();
                        temp.import_bits(chars);
                        let rows = temp.get_stack_view();
                        self.dtmf_buffer = Vec::new();
                        self.watchdog_armed = true;
                        EventAction::ReplayAndArm(rows)
                    } else {
                        EventAction::Nothing
                    }
                } else {
                    EventAction::Nothing
                }
            },
            SimEvent::CallEnded => {
                self.dtmf_buffer = Vec::new();
                EventAction::Nothing
            },
            SimEvent::IncomingCall(number) => EventAction::Forward(
                ModemCommand::AnswerOrRouteIncomingCall(number),
            ),
            SimEvent::CallReportConfirmed(_) => EventAction::Nothing,
            SimEvent::ClockSampleArrived(t) => EventAction::UpdateClock(t),
            SimEvent::ModemReady => EventAction::Nothing,
        }
    }

    /// The watchdog deadline fired: report whether the outputs must be
    /// forced to their safe state (true exactly when the watchdog was
    /// armed), and disarm it.
    pub fn on_watchdog_expiry(&mut self) -> (r: bool)
        ensures
            r == old(self).armed(),
            !final(self).armed(),
            final(self).dtmf() == old(self).dtmf(),
            final(self).wf() == old(self).wf(),
    {
        let was_armed = self.watchdog_armed;
        self.watchdog_armed = false;
        was_armed
    }
}

/// An alarm report ready to hand to the modem command path.
#[derive(Debug)]
pub enum Report {
    /// Full SMS text: prefix, divider, compact code, divider, timestamp.
    Sms(String),
    /// Bare compact code, to be played as DTMF digits during a call.
    Call(String),
}

/// Whether a report is due on this tick: the window changed since the
/// last export, or the keep-alive countdown ran out.
pub open spec fn spec_tick_due(changed: bool, countdown: int) -> bool {
    changed || countdown <= 0
}

/// The keep-alive countdown after one tick: reset on a report (the tick
/// itself consuming one step), otherwise counted down by one.
pub open spec fn spec_tick_countdown(changed: bool, countdown: int) -> int {
    if spec_tick_due(changed, countdown) {
        ALIVE_PERIOD_MINUTES - 1
    } else {
        countdown - 1
    }
}

/// The exact content of a due report, for the export-time window.
pub open spec fn spec_report_matches(rep: Report, code: Seq<char>, time: GsmTime) -> bool {
    if USE_SMS {
        rep matches Report::Sms(m) && m@ == SMS_PREFIX@ + SMS_DIVIDER@ + code + SMS_DIVIDER@
            + spec_format_gsm_time(time)
    } else {
        rep matches Report::Call(c) && c@ == code
    }
}

/// Shared state between the sampling task (which pushes snapshots) and
/// the reporting orchestrator; the application guards it with its lock,
/// held only across these short calls and never across modem waits.
pub struct SystemState {
    pub alarm_stack: AlarmStack,
    pub alive_countdown: i32,
}

impl SystemState {
    pub fn new() -> (r: Self)
        ensures
            r.alarm_stack.wf(),
            r.alarm_stack.window() =~= Seq::<Seq<bool>>::empty(),
            r.alive_countdown == 0,
    {
        SystemState { alarm_stack: AlarmStack::new(), alive_countdown: 0 }
    }

    /// One periodic report tick: decide, under the caller's lock, whether
    /// a report is due; if so, export the compact code (collapsing the
    /// window to its baseline), rebuild the keep-alive countdown, and
    /// return the report for delivery outside the lock.
    pub fn on_report_tick(&mut self, time: &GsmTime) -> (r: Option<Report>)
        requires
            old(self).alarm_stack.wf(),
            old(self).alive_countdown > i32::MIN,
            time.year <= 99,
            time.month <= 99,
            time.day <= 99,
            time.hour <= 99,
            time.minute <= 99,
            time.second <= 99,
        ensures
            final(self).alarm_stack.wf(),
            ({
                let changed = spec_window_changed(old(self).alarm_stack.window());
                let due = spec_tick_due(changed, old(self).alive_countdown as int);
                &&& (r is Some <==> due)
                &&& final(self).alive_countdown as int == spec_tick_countdown(
                    changed,
                    old(self).alive_countdown as int,
                )
                &&& (due ==> final(self).alarm_stack.window() =~~= spec_export_baseline(
                    old(self).alarm_stack.window(),
                ))
                &&& (!due ==> final(self).alarm_stack == old(self).alarm_stack)
                &&& (r matches Some(rep) ==> spec_report_matches(
                    rep,
                    spec_export_code(old(self).alarm_stack.window()),
                    *time,
                ))
            }),
    {
        let due = self.alarm_stack.has_changes() || self.alive_countdown <= 0;
        let out: Option<Report> = if due {
            let bits = self.alarm_stack.export_bits();
            let mut code_chars: Vec<char> = Vec::new();
            let mut i: usize = 0;
            while i < ALARMS_MESSAGE_STRING_LENGTH
                invariant
                    i <= ALARMS_MESSAGE_STRING_LENGTH,
                    code_chars@ =~= bits@.take(i as int),
                decreases ALARMS_MESSAGE_STRING_LENGTH - i,
            {
                code_chars.push(bits[i]);
                i = i + 1;
            }
            proof {
                assert(code_chars@ =~= bits@);
            }
            let code = string_from_chars(&code_chars);
            self.alive_countdown = ALIVE_PERIOD_MINUTES;
            if USE_SMS {
                let time_buf = format_gsm_time(time);
                let mut msg = String::new();
                msg.append(SMS_PREFIX);
                msg.append(SMS_DIVIDER);
                msg.append(code.as_str());
                msg.append(SMS_DIVIDER);
                msg.append(time_buf.as_str());
                Some(Report::Sms(msg))
            } else {
                Some(Report::Call(code))
            }
        } else {
            None
        };
        self.alive_countdown = self.alive_countdown - 1;
        out
    }
}

/// The countdown with which tick number `j` begins, when the window
/// never changes and the countdown starts at zero.
pub open spec fn spec_quiet_entering(j: nat) -> int
    decreases j,
{
    if j <= 1 {
        0
    } else {
        spec_tick_countdown(false, spec_quiet_entering((j - 1) as nat))
    }
}

proof fn lemma_quiet_entering_value(j: nat)
    requires
        2 <= j <= ALIVE_PERIOD_MINUTES + 1,
    ensures
        spec_quiet_entering(j) == ALIVE_PERIOD_MINUTES + 1 - j,
    decreases j,
{
    if j == 2 {
        assert(spec_quiet_entering(1) == 0);
    } else {
        lemma_quiet_entering_value((j - 1) as nat);
    }
}

/// Law: report cadence.  With no sensor change and the countdown starting
/// at zero, a report goes out on tick 1 and again on tick
/// `ALIVE_PERIOD_MINUTES + 1`, and on no tick in between.
pub proof fn lemma_report_cadence(j: nat)
    requires
        1 <= j <= ALIVE_PERIOD_MINUTES + 1,
    ensures
        spec_tick_due(false, spec_quiet_entering(j)) <==> (j == 1 || j == ALIVE_PERIOD_MINUTES
            + 1),
{
    if j >= 2 {
        lemma_quiet_entering_value(j);
    }
}

/// Law: a sensor change between ticks forces a report at the very next
/// tick, whatever the countdown holds.
pub proof fn lemma_change_forces_report(countdown: int)
    ensures
        spec_tick_due(true, countdown),
{
}

/// Confirmation-driven retry for call-based report delivery: the code
/// stays pending until the remote side confirms success, and every
/// failure or silence asks the application to retry after its backoff.
/// There is deliberately no attempt cap.
pub struct CallDelivery {
    pending: Option<String>,
}

impl CallDelivery {
    /// The code awaiting confirmation, if a delivery is in progress.
    pub closed spec fn pending_code(self) -> Option<Seq<char>> {
        match self.pending {
            Some(c) => Some(c@),
            None => None,
        }
    }

    pub fn new() -> (r: Self)
        ensures
            r.pending_code() is None,
    {
        CallDelivery { pending: None }
    }

    /// Begin delivering a code: remember it and emit the first attempt.
    pub fn start(&mut self, code: String) -> (r: ModemCommand)
        ensures
            final(self).pending_code() == Some(code@),
            r matches ModemCommand::SendAlarmReportByCall(c) && c@ == code@,
    {
        let attempt = code.clone();
        self.pending = Some(code);
        ModemCommand::SendAlarmReportByCall(attempt)
    }

    /// A confirmation arrived: success ends the delivery; failure keeps
    /// the code pending and emits the next attempt.
    pub fn on_confirmation(&mut self, success: bool) -> (r: Option<ModemCommand>)
        ensures
            old(self).pending_code() is None ==> (r is None && final(self).pending_code()
                is None),
            old(self).pending_code() matches Some(code) ==> ({
                if success {
                    r is None && final(self).pending_code() is None
                } else {
                    final(self).pending_code() == Some(code) && (r matches Some(
                        ModemCommand::SendAlarmReportByCall(c),
                    ) && c@ == code)
                }
            }),
    {
        match &self.pending {
            Some(code) => {
                if success {
                    self.pending = None;
                    None
                } else {
                    Some(ModemCommand::SendAlarmReportByCall(code.clone()))
                }
            },
            None => None,
        }
    }

    /// The bounded wait for a confirmation elapsed with no answer: keep
    /// the code pending and emit the next attempt.
    pub fn on_timeout(&mut self) -> (r: Option<ModemCommand>)
        ensures
            final(self).pending_code() == old(self).pending_code(),
            old(self).pending_code() is None ==> r is None,
            old(self).pending_code() matches Some(code) ==> (r matches Some(
                ModemCommand::SendAlarmReportByCall(c),
            ) && c@ == code),
    {
        match &self.pending {
            Some(code) => Some(ModemCommand::SendAlarmReportByCall(code.clone())),
            None => None,
        }
    }
}

/// What one watchdog expiry does: fire exactly when armed, and disarm.
pub open spec fn spec_watchdog_step(armed: bool) -> (bool, bool) {
    (armed, false)
}

/// Law: the watchdog is a single-shot.  After a replay arms it, one
/// expiry forces the safe state and disarms; a second expiry on the
/// resulting state can never fire again.
pub proof fn lemma_watchdog_fires_once(armed: bool)
    ensures
        spec_watchdog_step(armed).0 == armed,
        !spec_watchdog_step(armed).1,
        !spec_watchdog_step(spec_watchdog_step(armed).1).0,
{
}

} // verus!
