use panel800::sim800::{
    build_dial_command, build_sms_command, dial_accepted, hang_up_command, init_commands,
    init_liveness_passed, parse_quoted, sms_body_bytes, CommandResult, ResponseSlot, RxOutcome,
    Sim800Reader, SimEvent, SmsSendFlow, SmsSendStep,
};

fn feed(reader: &mut Sim800Reader, bytes: &[u8]) -> Vec<RxOutcome> {
    let mut seen = Vec::new();
    for &b in bytes {
        match reader.on_byte(b) {
            RxOutcome::Nothing => {}
            other => seen.push(other),
        }
    }
    seen
}

#[test]
fn sms_header_and_body_pair_into_one_event() {
    let mut reader = Sim800Reader::new();
    let outcomes = feed(
        &mut reader,
        b"+CMT: \"+1555\",\"\",\"24/01/01,12:00:00+00\"\r\n101\r\n",
    );
    assert_eq!(outcomes.len(), 1);
    match &outcomes[0] {
        RxOutcome::Event(SimEvent::SmsArrived(sms)) => {
            assert_eq!(sms.number, "+1555");
            assert_eq!(sms.timestamp, "24/01/01,12:00:00+00");
            assert_eq!(sms.message, "101");
        }
        other => panic!("expected an SMS event, got {:?}", other),
    }
}

#[test]
fn ok_and_error_lines_become_responses() {
    let mut reader = Sim800Reader::new();
    let outcomes = feed(&mut reader, b"OK\r\nERROR\r\n");
    assert_eq!(outcomes.len(), 2);
    assert!(matches!(outcomes[0], RxOutcome::Response(CommandResult::Okay)));
    assert!(matches!(outcomes[1], RxOutcome::Response(CommandResult::Error)));
}

#[test]
fn prompt_byte_dispatches_without_terminator() {
    let mut reader = Sim800Reader::new();
    let r = reader.on_byte(b'>');
    assert!(matches!(r, RxOutcome::Response(CommandResult::Prompt)));
}

#[test]
fn prompt_byte_inside_a_line_is_ordinary_data() {
    let mut reader = Sim800Reader::new();
    let outcomes = feed(&mut reader, b"A>\r\n");
    assert!(outcomes.is_empty());
}

#[test]
fn clip_line_carries_the_caller_number() {
    let mut reader = Sim800Reader::new();
    let outcomes = feed(&mut reader, b"RING\r\n+CLIP: \"+3912345\",145\r\n");
    assert_eq!(outcomes.len(), 1);
    match &outcomes[0] {
        RxOutcome::Event(SimEvent::IncomingCall(number)) => assert_eq!(number, "+3912345"),
        other => panic!("expected an incoming-call event, got {:?}", other),
    }
}

#[test]
fn no_carrier_and_call_ready_events() {
    let mut reader = Sim800Reader::new();
    let outcomes = feed(&mut reader, b"NO CARRIER\r\nCall Ready\r\n");
    assert_eq!(outcomes.len(), 2);
    assert!(matches!(outcomes[0], RxOutcome::Event(SimEvent::CallEnded)));
    assert!(matches!(outcomes[1], RxOutcome::Event(SimEvent::ModemReady)));
}

#[test]
fn unmatched_lines_are_dropped() {
    let mut reader = Sim800Reader::new();
    let outcomes = feed(&mut reader, b"+CSQ: 21,0\r\n\r\n   \r\n");
    assert!(outcomes.is_empty());
}

#[test]
fn overflowing_line_is_discarded_and_reader_recovers() {
    let mut reader = Sim800Reader::new();
    let mut long = vec![b'A'; 300];
    long.extend_from_slice(b"\r\nOK\r\n");
    let outcomes = feed(&mut reader, &long);
    // The oversized line produced nothing meaningful; the next real line
    // still classifies.
    assert!(matches!(
        outcomes.last(),
        Some(RxOutcome::Response(CommandResult::Okay))
    ));
}

#[test]
fn response_while_awaiting_body_discards_the_header() {
    // An `OK` outranks the armed body flag: it goes to the correlator and
    // the held header is dropped, so the next line is no longer a body.
    let mut reader = Sim800Reader::new();
    let outcomes = feed(
        &mut reader,
        b"+CMT: \"+1555\",\"\",\"24/01/01,12:00:00+00\"\r\nOK\r\n101\r\n",
    );
    assert_eq!(outcomes.len(), 1);
    assert!(matches!(outcomes[0], RxOutcome::Response(CommandResult::Okay)));
}

#[test]
fn invalid_utf8_line_is_dropped() {
    let mut reader = Sim800Reader::new();
    let outcomes = feed(&mut reader, b"\xff\xfe\r\nOK\r\n");
    assert_eq!(outcomes.len(), 1);
    assert!(matches!(outcomes[0], RxOutcome::Response(CommandResult::Okay)));
}

#[test]
fn parse_quoted_picks_the_indexed_field() {
    let line = "+CPBR: 2,\"*105#\",129,\"0\"";
    assert_eq!(parse_quoted::<16>(line, 0), "*105#");
    assert_eq!(parse_quoted::<16>(line, 1), "0");
    assert_eq!(parse_quoted::<16>(line, 5), "");
}

#[test]
fn parse_quoted_tolerates_missing_quotes() {
    assert_eq!(parse_quoted::<16>("no quotes here", 0), "");
    assert_eq!(parse_quoted::<16>("\"unclosed", 0), "unclosed");
}

#[test]
fn parse_quoted_truncates_to_capacity() {
    assert_eq!(parse_quoted::<4>("\"abcdefgh\"", 0), "abcd");
}

#[test]
fn single_slot_keeps_only_the_latest_result() {
    let mut slot = ResponseSlot::new();
    slot.signal(CommandResult::Okay);
    slot.signal(CommandResult::Error);
    assert_eq!(slot.try_take(), Some(CommandResult::Error));
    assert_eq!(slot.try_take(), None);
}

#[test]
fn reset_clears_a_stale_result_before_the_next_command() {
    let mut slot = ResponseSlot::new();
    slot.signal(CommandResult::Okay);
    slot.reset();
    assert_eq!(slot.try_take(), None);
}

#[test]
fn command_builders_produce_the_at_surface() {
    assert_eq!(build_sms_command("+3912345"), "AT+CMGS=\"+3912345\"\r\n");
    assert_eq!(build_dial_command("+3912345"), "ATD+3912345;\r\n");
    assert_eq!(hang_up_command(), "AT+CHUP\r\n");
    let cmds = init_commands();
    assert_eq!(
        cmds,
        vec![
            "AT\r\n",
            "ATE0\r\n",
            "AT+CMEE=1\r\n",
            "AT+CLIP=1\r\n",
            "AT+CMGF=1\r\n",
            "AT+CNMI=2,2,0,0,0\r\n",
        ]
    );
}

#[test]
fn sms_body_ends_with_the_terminator_byte() {
    assert_eq!(sms_body_bytes("101"), b"101\x1a".to_vec());
}

#[test]
fn init_continues_only_after_ok() {
    assert!(init_liveness_passed(CommandResult::Okay));
    assert!(!init_liveness_passed(CommandResult::Timeout));
    assert!(!init_liveness_passed(CommandResult::Error));
}

#[test]
fn dial_accepted_only_on_ok() {
    assert!(dial_accepted(CommandResult::Okay));
    assert!(!dial_accepted(CommandResult::Prompt));
}

#[test]
fn sms_flow_happy_path() {
    let (mut flow, cmd) = SmsSendFlow::start("+1555", "101;240101120000");
    assert_eq!(cmd, "AT+CMGS=\"+1555\"\r\n");
    match flow.on_result(CommandResult::Prompt) {
        SmsSendStep::SendBody(bytes) => assert_eq!(bytes, b"101;240101120000\x1a".to_vec()),
        _ => panic!("expected the body to be sent after the prompt"),
    }
    assert!(matches!(flow.on_result(CommandResult::Okay), SmsSendStep::Succeeded));
}

#[test]
fn sms_flow_fails_without_prompt() {
    let (mut flow, _cmd) = SmsSendFlow::start("+1555", "101");
    assert!(matches!(flow.on_result(CommandResult::Timeout), SmsSendStep::Failed));
}

#[test]
fn sms_flow_fails_without_final_ok() {
    let (mut flow, _cmd) = SmsSendFlow::start("+1555", "101");
    assert!(matches!(flow.on_result(CommandResult::Prompt), SmsSendStep::SendBody(_)));
    assert!(matches!(flow.on_result(CommandResult::Error), SmsSendStep::Failed));
}
