//! Modem protocol driver: the line transport over the serial byte stream,
//! the response/event classifier, the single-slot command/response
//! correlator, and the builders for the outbound AT command surface.

use vstd::prelude::*;
use vstd::string::StrSliceExecFns;
use vstd::string::StringExecFns;
use vstd::string::StringSliceAdditionalSpecFns;
use vstd::utf8::{decode_utf8, encode_utf8, valid_utf8};
use crate::custom_strings::spec_starts_with;
use crate::gsm_time_converter::GsmTime;

verus! {

/// Longest caller number the driver keeps from a notification line.
pub const MAX_PHONE_LENGTH: usize = 20;

/// Longest timestamp the driver keeps from an SMS notification header.
pub const MAX_TIMESTAMP_LENGTH: usize = 20;

/// Capacity of the line accumulation buffer, in bytes; a line that grows
/// past it is discarded.
pub const SIM800_LINE_BUFFER_SIZE: usize = 128;

/// Classified outcome of one outbound command.
#[derive(Clone, Copy, Debug, PartialEq, Eq, Structural)]
pub enum CommandResult {
    Okay,
    Error,
    /// The bare `>` byte with which the modem requests SMS body text.
    Prompt,
    /// No classified line arrived in time.
    Timeout,
}

/// A received text message, fully paired: notification header plus the
/// body line that followed it.
#[derive(Clone, Debug)]
pub struct Sms {
    pub number: String,
    pub timestamp: String,
    pub message: String,
}

/// Unsolicited facts the modem reports, as the orchestrator consumes them.
#[derive(Clone, Debug)]
pub enum SimEvent {
    IncomingCall(String),
    CallEnded,
    CallReportConfirmed(bool),
    SmsArrived(Sms),
    DtmfDigit(char),
    ClockSampleArrived(GsmTime),
    ModemReady,
}

/// Outbound intents the orchestrator hands to the modem command path.
#[derive(Clone, Debug)]
pub enum ModemCommand {
    Initialize,
    RefreshClockFromNetwork,
    AnswerOrRouteIncomingCall(String),
    SendAlarmReportBySms(String),
    SendAlarmReportByCall(String),
}

/// What the reader makes of one input byte: nothing yet, a classified
/// response for the correlator, or an unsolicited event.
#[derive(Clone, Debug)]
pub enum RxOutcome {
    Nothing,
    Response(CommandResult),
    Event(SimEvent),
}

/// What producing a result does to the rendezvous slot: the newest value
/// simply replaces whatever was there.
pub open spec fn spec_slot_signal(slot: Option<CommandResult>, r: CommandResult) -> Option<
    CommandResult,
> {
    Some(r)
}

/// What clearing the slot does: any stale result is gone.
pub open spec fn spec_slot_reset(slot: Option<CommandResult>) -> Option<CommandResult> {
    None
}

/// Single-slot rendezvous between the reader task (producer of classified
/// results) and the one in-flight outbound command (consumer).  AT
/// responses carry no correlation identifier, so this pairing is sound
/// only under the one-command-in-flight discipline.
pub struct ResponseSlot {
    value: Option<CommandResult>,
}

impl ResponseSlot {
    /// The result currently stored, if any.
    pub closed spec fn stored(self) -> Option<CommandResult> {
        self.value
    }

    pub fn new() -> (r: Self)
        ensures
            r.stored() is None,
    {
        ResponseSlot { value: None }
    }

    /// Producer side: store a classified result, replacing any unread one.
    pub fn signal(&mut self, result: CommandResult)
        ensures
            final(self).stored() == spec_slot_signal(old(self).stored(), result),
    {
        self.value = Some(result);
    }

    /// Consumer side, before sending: drop any stale result.
    pub fn reset(&mut self)
        ensures
            final(self).stored() == spec_slot_reset(old(self).stored()),
    {
        self.value = None;
    }

    /// Consumer side, while waiting: read and clear the stored result.
    pub fn try_take(&mut self) -> (r: Option<CommandResult>)
        ensures
            r == old(self).stored(),
            final(self).stored() is None,
    {
        let taken = self.value;
        self.value = None;
        taken
    }
}

/// Law: the rendezvous slot is "latest value wins".  If two results are
/// produced before the waiting command reads the slot, only the second is
/// ever observed; and a command that begins by clearing the slot can
/// never observe a result produced before it began.  Together with the
/// one-command-in-flight discipline this keeps command B from observing
/// command A's result, in either order.
pub proof fn lemma_single_slot_correlation(
    s0: Option<CommandResult>,
    r1: CommandResult,
    r2: CommandResult,
)
    ensures
        spec_slot_signal(spec_slot_signal(spec_slot_reset(s0), r1), r2) == Some(r2),
        spec_slot_reset(spec_slot_signal(s0, r1)) is None,
{
}

/// Build the SMS send command for a destination number.
pub fn build_sms_command(number: &str) -> (r: String)
    ensures
        r@ == "AT+CMGS=\""@ + number@ + "\"\r\n"@,
{
    let mut cmd = String::new();
    cmd.append("AT+CMGS=\"");
    cmd.append(number);
    cmd.append("\"\r\n");
    cmd
}

/// Build the voice-dial command for a number.
pub fn build_dial_command(number: &str) -> (r: String)
    ensures
        r@ == "ATD"@ + number@ + ";\r\n"@,
{
    let mut cmd = String::new();
    cmd.append("ATD");
    cmd.append(number);
    cmd.append(";\r\n");
    cmd
}

/// The hang-up command.
pub fn hang_up_command() -> (r: String)
    ensures
        r@ == "AT+CHUP\r\n"@,
{
    let mut cmd = String::new();
    cmd.append("AT+CHUP\r\n");
    cmd
}

/// The body bytes that follow an accepted SMS prompt: the message text
/// closed by the `0x1A` control byte.
pub fn sms_body_bytes(message: &str) -> (r: Vec<u8>)
    ensures
        r@ == message.spec_bytes().push(26u8),
{
    let mut bytes = message.as_bytes_vec();
    bytes.push(26u8);
    bytes
}

/// The fixed initialization sequence: liveness check, echo off, verbose
/// errors, caller identification, SMS text mode, direct SMS delivery.
pub fn init_commands() -> (r: Vec<String>)
    ensures
        r@.len() == 6,
        r@[0]@ == "AT\r\n"@,
        r@[1]@ == "ATE0\r\n"@,
        r@[2]@ == "AT+CMEE=1\r\n"@,
        r@[3]@ == "AT+CLIP=1\r\n"@,
        r@[4]@ == "AT+CMGF=1\r\n"@,
        r@[5]@ == "AT+CNMI=2,2,0,0,0\r\n"@,
{
    let mut cmds: Vec<String> = Vec::new();
    cmds.push(String::from_str("AT\r\n"));
    cmds.push(String::from_str("ATE0\r\n"));
    cmds.push(String::from_str("AT+CMEE=1\r\n"));
    cmds.push(String::from_str("AT+CLIP=1\r\n"));
    cmds.push(String::from_str("AT+CMGF=1\r\n"));
    cmds.push(String::from_str("AT+CNMI=2,2,0,0,0\r\n"));
    cmds
}

/// Whether initialization may continue past the liveness check: only an
/// `OK` to the first `AT` does; every later command is fire-and-forget.
pub fn init_liveness_passed(first: CommandResult) -> (r: bool)
    ensures
        r == (first is Okay),
{
    match first {
        CommandResult::Okay => true,
        _ => false,
    }
}

/// Whether a dial command was accepted by the modem.
pub fn dial_accepted(result: CommandResult) -> (r: bool)
    ensures
        r == (result is Okay),
{
    match result {
        CommandResult::Okay => true,
        _ => false,
    }
}

/// Continuation of the quoted-field scan from position `i` in state
/// (`cur` pairs closed, `inq` inside a pair, `acc` collected so far): the
/// field finally extracted.  Collection is capped at `cap` characters and
/// the scan stops at the closing quote of the target pair; with the pair
/// never closed, whatever was collected stands.
pub open spec fn spec_quoted_scan(
    s: Seq<char>,
    i: int,
    target: int,
    cur: int,
    inq: bool,
    acc: Seq<char>,
    cap: int,
) -> Seq<char>
    decreases s.len() - i,
{
    if i < 0 || i >= s.len() {
        acc
    } else {
        let c = s[i];
        if c == '"' {
            if inq {
                if cur == target {
                    acc
                } else {
                    spec_quoted_scan(s, i + 1, target, cur + 1, false, acc, cap)
                }
            } else {
                spec_quoted_scan(
                    s,
                    i + 1,
                    target,
                    cur,
                    true,
                    if cur == target {
                        Seq::empty()
                    } else {
                        acc
                    },
                    cap,
                )
            }
        } else if inq && cur == target && acc.len() < cap {
            spec_quoted_scan(s, i + 1, target, cur, true, acc.push(c), cap)
        } else {
            spec_quoted_scan(s, i + 1, target, cur, inq, acc, cap)
        }
    }
}

/// The text of the `target`-th double-quoted field of `s` (counting from
/// zero), capped at `cap` characters; empty when no such field opens.
pub open spec fn spec_parse_quoted(s: Seq<char>, target: int, cap: int) -> Seq<char> {
    spec_quoted_scan(s, 0, target, 0, false, Seq::empty(), cap)
}

/// Extract the text between the `target_idx`-th pair of double quotes,
/// independent of what stands between pairs; keeps at most `N`
/// characters, and yields what was collected (possibly nothing) when the
/// quotes never pair up.
pub fn parse_quoted<const N: usize>(input: &str, target_idx: usize) -> (r: String)
    ensures
        r@ == spec_parse_quoted(input@, target_idx as int, N as int),
{
    let n = input.unicode_len();
    let mut current_idx: usize = 0;
    let mut in_quote = false;
    let mut out: Vec<char> = Vec::new();
    let mut i: usize = 0;
    while i < n
        invariant
            n == input@.len(),
            i <= n,
            current_idx <= i,
            out@.len() <= N,
            spec_parse_quoted(input@, target_idx as int, N as int) == spec_quoted_scan(
                input@,
                i as int,
                target_idx as int,
                current_idx as int,
                in_quote,
                out@,
                N as int,
            ),
        decreases n - i,
    {
        let c = input.get_char(i);
        if c == '"' {
            if in_quote {
                if current_idx == target_idx {
                    return crate::custom_strings::string_from_chars(&out);
                }
                current_idx = current_idx + 1;
                in_quote = false;
            } else {
                in_quote = true;
                if current_idx == target_idx {
                    out = Vec::new();
                }
            }
        } else if in_quote && current_idx == target_idx {
            if out.len() < N {
                out.push(c);
            }
        }
        i = i + 1;
    }
    crate::custom_strings::string_from_chars(&out)
}

/// ASCII whitespace as the line transport strips it.
pub open spec fn spec_is_ws(b: u8) -> bool {
    b == 32 || b == 9 || b == 10 || b == 13
}

/// `s` without leading ASCII whitespace.
pub open spec fn spec_trim_start(s: Seq<u8>) -> Seq<u8>
    decreases s.len(),
{
    if s.len() > 0 && spec_is_ws(s[0]) {
        spec_trim_start(s.skip(1))
    } else {
        s
    }
}

/// `s` without trailing ASCII whitespace.
pub open spec fn spec_trim_end(s: Seq<u8>) -> Seq<u8>
    decreases s.len(),
{
    if s.len() > 0 && spec_is_ws(s.last()) {
        spec_trim_end(s.drop_last())
    } else {
        s
    }
}

/// `s` without surrounding ASCII whitespace (the carriage return before a
/// line feed falls away here as well).
pub open spec fn spec_trimmed(s: Seq<u8>) -> Seq<u8> {
    spec_trim_end(spec_trim_start(s))
}

proof fn lemma_trim_start_at(s: Seq<u8>, start: int)
    requires
        0 <= start <= s.len(),
        forall|k: int| 0 <= k < start ==> spec_is_ws(#[trigger] s[k]),
        start == s.len() || !spec_is_ws(s[start]),
    ensures
        spec_trim_start(s) =~= s.skip(start),
    decreases start,
{
    if start == 0 {
        if s.len() > 0 && spec_is_ws(s[0]) {
        } else {
            assert(s.skip(0) =~= s);
        }
        assert(spec_trim_start(s) =~= s.skip(0));
    } else {
        assert(spec_is_ws(s[0]));
        lemma_trim_start_at(s.skip(1), start - 1);
        assert(s.skip(1).skip(start - 1) =~= s.skip(start));
    }
}

proof fn lemma_trim_end_at(s: Seq<u8>, end: int)
    requires
        0 <= end <= s.len(),
        forall|k: int| end <= k < s.len() ==> spec_is_ws(#[trigger] s[k]),
        end == 0 || !spec_is_ws(s[end - 1]),
    ensures
        spec_trim_end(s) =~= s.take(end),
    decreases s.len() - end,
{
    if end == s.len() {
        if s.len() > 0 && spec_is_ws(s.last()) {
        } else {
            assert(s.take(end) =~= s);
        }
    } else {
        assert(spec_is_ws(s.last()));
        lemma_trim_end_at(s.drop_last(), end);
        assert(s.drop_last().take(end) =~= s.take(end));
    }
}

/// Whether the transport strips this byte at line edges.
fn byte_is_ws(b: u8) -> (r: bool)
    ensures
        r == spec_is_ws(b),
{
    b == 32 || b == 9 || b == 10 || b == 13
}

/// Spec-level image of what one classified line produces, with the
/// payloads as character sequences.
pub enum SpecRxOutcome {
    Nothing,
    Response(CommandResult),
    IncomingCall(Seq<char>),
    CallEnded,
    Sms(Seq<char>, Seq<char>, Seq<char>),
    ModemReady,
}

/// The classifier's transition on one non-empty line `s`, given the
/// expecting-body flag and the held SMS header: the new flag, the new
/// header, and what is emitted.  Matching rules in priority order: exact
/// `OK`/`ERROR` go to the correlator (discarding any held header, whose
/// body never came); an armed flag consumes the line as the SMS body;
/// `RING` is deliberately silent (the number is not known yet); then the
/// prefixed notifications; anything unmatched is dropped.
pub open spec fn spec_classify(
    expecting: bool,
    pending: Option<(Seq<char>, Seq<char>)>,
    s: Seq<char>,
) -> (bool, Option<(Seq<char>, Seq<char>)>, SpecRxOutcome) {
    if s == "OK"@ {
        (false, None, SpecRxOutcome::Response(CommandResult::Okay))
    } else if s == "ERROR"@ {
        (false, None, SpecRxOutcome::Response(CommandResult::Error))
    } else if expecting {
        match pending {
            Some(p) => (
                false,
                None,
                SpecRxOutcome::Sms(
                    p.0,
                    p.1,
                    if encode_utf8(s).len() <= SIM800_LINE_BUFFER_SIZE {
                        s
                    } else {
                        Seq::empty()
                    },
                ),
            ),
            None => (false, None, SpecRxOutcome::Nothing),
        }
    } else if s == "RING"@ {
        (false, pending, SpecRxOutcome::Nothing)
    } else if spec_starts_with(s, "+CLIP:"@) {
        (
            false,
            pending,
            SpecRxOutcome::IncomingCall(spec_parse_quoted(s, 0, MAX_PHONE_LENGTH as int)),
        )
    } else if spec_starts_with(s, "NO CARRIER"@) {
        (false, pending, SpecRxOutcome::CallEnded)
    } else if spec_starts_with(s, "+CMT:"@) {
        (
            true,
            Some(
                (
                    spec_parse_quoted(s, 0, MAX_PHONE_LENGTH as int),
                    spec_parse_quoted(s, 2, MAX_TIMESTAMP_LENGTH as int),
                ),
            ),
            SpecRxOutcome::Nothing,
        )
    } else if spec_starts_with(s, "Call Ready"@) {
        (false, pending, SpecRxOutcome::ModemReady)
    } else {
        (false, pending, SpecRxOutcome::Nothing)
    }
}

/// The executable outcome carries exactly the payloads of its spec image.
pub open spec fn spec_rx_matches(r: RxOutcome, m: SpecRxOutcome) -> bool {
    match (r, m) {
        (RxOutcome::Nothing, SpecRxOutcome::Nothing) => true,
        (RxOutcome::Response(a), SpecRxOutcome::Response(b)) => a == b,
        (RxOutcome::Event(SimEvent::IncomingCall(n)), SpecRxOutcome::IncomingCall(ns)) => n@ == ns,
        (RxOutcome::Event(SimEvent::CallEnded), SpecRxOutcome::CallEnded) => true,
        (
            RxOutcome::Event(SimEvent::SmsArrived(sms)),
            SpecRxOutcome::Sms(num, ts, body),
        ) => sms.number@ == num && sms.timestamp@ == ts && sms.message@ == body,
        (RxOutcome::Event(SimEvent::ModemReady), SpecRxOutcome::ModemReady) => true,
        _ => false,
    }
}

/// Reader side of the driver: accumulates serial bytes into lines and
/// classifies each completed line, carrying the one-line-pair state that
/// SMS notification headers need.
pub struct Sim800Reader {
    line: Vec<u8>,
    expecting_sms_body: bool,
    pending: Option<(String, String)>,
}

impl Sim800Reader {
    /// The bytes accumulated towards the current line.
    pub closed spec fn buffered(self) -> Seq<u8> {
        self.line@
    }

    /// Whether the next non-response line is an SMS body.
    pub closed spec fn expecting_body(self) -> bool {
        self.expecting_sms_body
    }

    /// The held sender and timestamp of a notification awaiting its body.
    pub closed spec fn pending_header(self) -> Option<(Seq<char>, Seq<char>)> {
        match self.pending {
            Some(p) => Some((p.0@, p.1@)),
            None => None,
        }
    }

    pub closed spec fn wf(self) -> bool {
        self.line@.len() <= SIM800_LINE_BUFFER_SIZE
    }

    pub fn new() -> (r: Self)
        ensures
            r.wf(),
            r.buffered() =~= Seq::<u8>::empty(),
            !r.expecting_body(),
            r.pending_header() is None,
    {
        Sim800Reader { line: Vec::new(), expecting_sms_body: false, pending: None }
    }

    /// Classify one completed, trimmed, non-empty line.
    pub fn classify_line(&mut self, line: &str) -> (r: RxOutcome)
        requires
            line.spec_bytes().len() <= usize::MAX,
        ensures
            final(self).buffered() == old(self).buffered(),
            ({
                let step = spec_classify(
                    old(self).expecting_body(),
                    old(self).pending_header(),
                    line@,
                );
                final(self).expecting_body() == step.0 && final(self).pending_header() == step.1
                    && spec_rx_matches(r, step.2)
            }),
    {
        if crate::custom_strings::str_eq(line, "OK") {
            self.expecting_sms_body = false;
            self.pending = None;
            return RxOutcome::Response(CommandResult::Okay);
        }
        if crate::custom_strings::str_eq(line, "ERROR") {
            self.expecting_sms_body = false;
            self.pending = None;
            return RxOutcome::Response(CommandResult::Error);
        }
        if self.expecting_sms_body {
            self.expecting_sms_body = false;
            match self.pending.take() {
                Some(header) => {
                    let (number, timestamp) = header;
                    let message = if line.len() <= SIM800_LINE_BUFFER_SIZE {
                        line.to_owned()
                    } else {
                        String::new()
                    };
                    return RxOutcome::Event(
                        SimEvent::SmsArrived(Sms { number, timestamp, message }),
                    );
                },
                None => {
                    return RxOutcome::Nothing;
                },
            }
        }
        if crate::custom_strings::str_eq(line, "RING") {
            return RxOutcome::Nothing;
        }
        if crate::custom_strings::str_starts_with(line, "+CLIP:") {
            let number = parse_quoted::<MAX_PHONE_LENGTH>(line, 0);
            return RxOutcome::Event(SimEvent::IncomingCall(number));
        }
        if crate::custom_strings::str_starts_with(line, "NO CARRIER") {
            return RxOutcome::Event(SimEvent::CallEnded);
        }
        if crate::custom_strings::str_starts_with(line, "+CMT:") {
            let number = parse_quoted::<MAX_PHONE_LENGTH>(line, 0);
            let timestamp = parse_quoted::<MAX_TIMESTAMP_LENGTH>(line, 2);
            self.pending = Some((number, timestamp));
            self.expecting_sms_body = true;
            return RxOutcome::Nothing;
        }
        if crate::custom_strings::str_starts_with(line, "Call Ready") {
            return RxOutcome::Event(SimEvent::ModemReady);
        }
        RxOutcome::Nothing
    }

    /// Consume one serial byte.  A bare `>` on an empty buffer is the SMS
    /// prompt and is dispatched at once; a line feed completes a line,
    /// which is trimmed and (when non-empty and valid UTF-8) classified;
    /// a line that outgrows the buffer is discarded.
    pub fn on_byte(&mut self, b: u8) -> (r: RxOutcome)
        requires
            old(self).wf(),
        ensures
            final(self).wf(),
            b == 62 && old(self).buffered().len() == 0 ==> (r matches RxOutcome::Response(
                CommandResult::Prompt,
            ) && *final(self) == *old(self)),
            b == 10 ==> final(self).buffered() =~= Seq::<u8>::empty(),
            b == 10 ==> ({
                let t = spec_trimmed(old(self).buffered());
                if t.len() == 0 || !valid_utf8(t) {
                    r is Nothing && final(self).expecting_body() == old(self).expecting_body()
                        && final(self).pending_header() == old(self).pending_header()
                } else {
                    let step = spec_classify(
                        old(self).expecting_body(),
                        old(self).pending_header(),
                        decode_utf8(t),
                    );
                    final(self).expecting_body() == step.0 && final(self).pending_header()
                        == step.1 && spec_rx_matches(r, step.2)
                }
            }),
            b != 10 && !(b == 62 && old(self).buffered().len() == 0) && old(self).buffered().len() < SIM800_LINE_BUFFER_SIZE ==> (r is Nothing && final(self).buffered() == old(self).buffered().push(b) && final(self).expecting_body() == old(self).expecting_body() && final(self).pending_header() == old(self).pending_header()),
            b != 10 && !(b == 62 && old(self).buffered().len() == 0) && old(self).buffered().len() == SIM800_LINE_BUFFER_SIZE ==> (r is Nothing && final(self).buffered() =~= Seq::<u8>::empty() && final(self).expecting_body() == old(self).expecting_body() && final(self).pending_header() == old(self).pending_header()),
    {
        if b == 62 && self.line.len() == 0 {
            return RxOutcome::Response(CommandResult::Prompt);
        }
        if b == 10 {
            let mut full: Vec<u8> = Vec::new();
            core::mem::swap(&mut full, &mut self.line);
            let len = full.len();
            let mut start: usize = 0;
            while start < len && byte_is_ws(full[start])
                invariant
                    len == full@.len(),
                    start <= len,
                    forall|k: int| 0 <= k < start ==> spec_is_ws(#[trigger] full@[k]),
                decreases len - start,
            {
                start = start + 1;
            }
            let mut end: usize = len;
            while end > start && byte_is_ws(full[end - 1])
                invariant
                    len == full@.len(),
                    start <= end <= len,
                    forall|k: int| end <= k < len ==> spec_is_ws(#[trigger] full@[k]),
                decreases end,
            {
                end = end - 1;
            }
            proof {
                lemma_trim_start_at(full@, start as int);
                lemma_trim_end_at(full@.skip(start as int), end - start);
                assert(full@.skip(start as int).take(end - start) =~= full@.subrange(
                    start as int,
                    end as int,
                ));
                assert(spec_trimmed(full@) =~= full@.subrange(start as int, end as int));
            }
            if end == start {
                return RxOutcome::Nothing;
            }
            let slice = vstd::slice::slice_subrange(full.as_slice(), start, end);
            match crate::custom_strings::str_from_bytes(slice) {
                Some(text) => {
                    proof {
                        vstd::utf8::encode_utf8_decode_utf8(text@);
                    }
                    let outcome = self.classify_line(text);
                    return outcome;
                },
                None => {
                    return RxOutcome::Nothing;
                },
            }
        }
        if self.line.len() < SIM800_LINE_BUFFER_SIZE {
            self.line.push(b);
            return RxOutcome::Nothing;
        }
        self.line = Vec::new();
        RxOutcome::Nothing
    }
}

/// Phase of one SMS transmission.
#[derive(Clone, Copy, Debug, PartialEq, Eq, Structural)]
pub enum SmsPhase {
    AwaitingPrompt,
    AwaitingConfirm,
    Finished,
}

/// What the SMS flow asks of its driver next.
pub enum SmsSendStep {
    /// Transmit these body bytes, then wait for the final result.
    SendBody(Vec<u8>),
    Succeeded,
    Failed,
}

/// The decision half of sending one SMS: header command first, body only
/// after the `>` prompt, success only on a final `OK`.
pub struct SmsSendFlow {
    message: String,
    phase: SmsPhase,
}

impl SmsSendFlow {
    pub closed spec fn spec_phase(self) -> SmsPhase {
        self.phase
    }

    pub closed spec fn spec_message(self) -> Seq<char> {
        self.message@
    }

    /// Begin a transmission: returns the flow and the header command to
    /// send first.
    pub fn start(number: &str, message: &str) -> (r: (Self, String))
        ensures
            r.0.spec_phase() is AwaitingPrompt,
            r.0.spec_message() == message@,
            r.1@ == "AT+CMGS=\""@ + number@ + "\"\r\n"@,
    {
        let cmd = build_sms_command(number);
        (SmsSendFlow { message: message.to_owned(), phase: SmsPhase::AwaitingPrompt }, cmd)
    }

    /// Feed the classified result of the last exchange; decides whether to
    /// transmit the body, declare success, or give up.
    pub fn on_result(&mut self, result: CommandResult) -> (r: SmsSendStep)
        requires
            !(old(self).spec_phase() is Finished),
        ensures
            final(self).spec_message() == old(self).spec_message(),
            old(self).spec_phase() is AwaitingPrompt && result is Prompt ==> (r matches
                SmsSendStep::SendBody(bytes) && bytes@ == encode_utf8(
                old(self).spec_message(),
            ).push(26u8) && final(self).spec_phase() is AwaitingConfirm),
            old(self).spec_phase() is AwaitingPrompt && !(result is Prompt) ==> (r
                is Failed && final(self).spec_phase() is Finished),
            old(self).spec_phase() is AwaitingConfirm && result is Okay ==> (r is Succeeded
                && final(self).spec_phase() is Finished),
            old(self).spec_phase() is AwaitingConfirm && !(result is Okay) ==> (r is Failed
                && final(self).spec_phase() is Finished),
    {
        match self.phase {
            SmsPhase::AwaitingPrompt => {
                if matches!(result, CommandResult::Prompt) {
                    self.phase = SmsPhase::AwaitingConfirm;
                    SmsSendStep::SendBody(sms_body_bytes(self.message.as_str()))
                } else {
                    self.phase = SmsPhase::Finished;
                    SmsSendStep::Failed
                }
            },
            SmsPhase::AwaitingConfirm => {
                self.phase = SmsPhase::Finished;
                if matches!(result, CommandResult::Okay) {
                    SmsSendStep::Succeeded
                } else {
                    SmsSendStep::Failed
                }
            },
            SmsPhase::Finished => SmsSendStep::Failed,
        }
    }
}

} // verus!
