use panel800::constants::ALIVE_PERIOD_MINUTES;
use panel800::gsm_time_converter::GsmTime;
use panel800::logic::{
    decode_alarm_rows, intrusion_active, CallDelivery, EventAction, LogicState, Report,
    SystemState,
};
use panel800::sim800::{ModemCommand, SimEvent, Sms};

fn zero_time() -> GsmTime {
    GsmTime { year: 0, month: 0, day: 0, hour: 0, minute: 0, second: 0 }
}

fn sms_event(body: &str) -> SimEvent {
    SimEvent::SmsArrived(Sms {
        number: String::from("+1555"),
        timestamp: String::from("24/01/01,12:00:00+00"),
        message: String::from(body),
    })
}

#[test]
fn intrusion_band_is_strict() {
    assert!(!intrusion_active(1000));
    assert!(intrusion_active(1001));
    assert!(intrusion_active(1499));
    assert!(!intrusion_active(1500));
}

#[test]
fn decode_alarm_rows_unpacks_digits() {
    assert_eq!(
        decode_alarm_rows("564"),
        [[true, false, false], [false, true, false], [true, true, true]]
    );
}

#[test]
fn sms_with_full_code_replays_and_arms() {
    let mut logic = LogicState::new();
    match logic.on_sim_event(sms_event("564;extra")) {
        EventAction::ReplayAndArm(rows) => {
            assert_eq!(
                rows,
                [[true, false, false], [false, true, false], [true, true, true]]
            );
        }
        other => panic!("expected a replay, got {:?}", other),
    }
    // The watchdog was armed by the replay.
    assert!(logic.on_watchdog_expiry());
}

#[test]
fn sms_with_wrong_length_code_is_ignored() {
    let mut logic = LogicState::new();
    assert!(matches!(logic.on_sim_event(sms_event("12;x")), EventAction::Nothing));
    assert!(matches!(logic.on_sim_event(sms_event("no divider")), EventAction::Nothing));
    assert!(!logic.on_watchdog_expiry());
}

#[test]
fn dtmf_code_replays_after_last_digit() {
    let mut logic = LogicState::new();
    assert!(matches!(logic.on_sim_event(SimEvent::DtmfDigit('1')), EventAction::Nothing));
    assert!(matches!(logic.on_sim_event(SimEvent::DtmfDigit('0')), EventAction::Nothing));
    match logic.on_sim_event(SimEvent::DtmfDigit('1')) {
        EventAction::ReplayAndArm(rows) => {
            assert_eq!(
                rows,
                [[true, false, true], [false, false, false], [false, false, false]]
            );
        }
        other => panic!("expected a replay, got {:?}", other),
    }
    // The buffer was cleared: three more digits start a fresh code.
    assert!(matches!(logic.on_sim_event(SimEvent::DtmfDigit('7')), EventAction::Nothing));
}

#[test]
fn call_ending_discards_a_partial_code() {
    let mut logic = LogicState::new();
    let _ = logic.on_sim_event(SimEvent::DtmfDigit('1'));
    let _ = logic.on_sim_event(SimEvent::DtmfDigit('2'));
    let _ = logic.on_sim_event(SimEvent::CallEnded);
    let _ = logic.on_sim_event(SimEvent::DtmfDigit('0'));
    let _ = logic.on_sim_event(SimEvent::DtmfDigit('0'));
    // Only the two digits after the call ended count; the code is still
    // incomplete, so nothing replays yet.
    match logic.on_sim_event(SimEvent::DtmfDigit('1')) {
        EventAction::ReplayAndArm(rows) => {
            assert_eq!(
                rows,
                [[false, false, true], [false, false, false], [false, false, false]]
            );
        }
        other => panic!("expected a replay, got {:?}", other),
    }
}

#[test]
fn incoming_call_is_delegated() {
    let mut logic = LogicState::new();
    match logic.on_sim_event(SimEvent::IncomingCall(String::from("+3912345"))) {
        EventAction::Forward(ModemCommand::AnswerOrRouteIncomingCall(number)) => {
            assert_eq!(number, "+3912345");
        }
        other => panic!("expected a forwarded command, got {:?}", other),
    }
}

#[test]
fn clock_sample_is_delegated() {
    let mut logic = LogicState::new();
    let t = GsmTime { year: 24, month: 1, day: 2, hour: 3, minute: 4, second: 5 };
    match logic.on_sim_event(SimEvent::ClockSampleArrived(t)) {
        EventAction::UpdateClock(u) => assert_eq!(u, t),
        other => panic!("expected a clock update, got {:?}", other),
    }
}

#[test]
fn confirmation_event_is_consumed_silently() {
    let mut logic = LogicState::new();
    assert!(matches!(
        logic.on_sim_event(SimEvent::CallReportConfirmed(true)),
        EventAction::Nothing
    ));
}

#[test]
fn watchdog_fires_exactly_once() {
    let mut logic = LogicState::new();
    let _ = logic.on_sim_event(sms_event("101;x"));
    assert!(logic.on_watchdog_expiry());
    assert!(!logic.on_watchdog_expiry());
}

#[test]
fn report_cadence_without_changes() {
    let mut state = SystemState::new();
    let time = zero_time();
    // Tick 1: countdown starts exhausted, so a keep-alive report goes out.
    assert!(state.on_report_tick(&time).is_some());
    // Ticks 2 ..= ALIVE_PERIOD_MINUTES: quiet.
    for _ in 2..=ALIVE_PERIOD_MINUTES {
        assert!(state.on_report_tick(&time).is_none());
    }
    // Tick ALIVE_PERIOD_MINUTES + 1: the next keep-alive report.
    assert!(state.on_report_tick(&time).is_some());
}

#[test]
fn sensor_change_forces_a_report_at_the_next_tick() {
    let mut state = SystemState::new();
    let time = zero_time();
    assert!(state.on_report_tick(&time).is_some());
    assert!(state.on_report_tick(&time).is_none());
    state.alarm_stack.push(&[true, false, false]);
    match state.on_report_tick(&time) {
        Some(Report::Call(code)) => assert_eq!(code, "200"),
        other => panic!("expected a call report, got {:?}", other),
    }
}

#[test]
fn report_code_reflects_the_window() {
    let mut state = SystemState::new();
    state.alarm_stack.push(&[true, false, false]);
    state.alarm_stack.push(&[false, true, false]);
    state.alarm_stack.push(&[true, true, true]);
    let time = zero_time();
    match state.on_report_tick(&time) {
        Some(Report::Call(code)) => assert_eq!(code, "564"),
        other => panic!("expected a call report, got {:?}", other),
    }
    // The export collapsed the window: nothing more to report until the
    // countdown runs out again.
    assert!(state.on_report_tick(&time).is_none());
}

#[test]
fn call_delivery_retries_until_confirmed() {
    let mut delivery = CallDelivery::new();
    let first = delivery.start(String::from("564"));
    assert!(matches!(first, ModemCommand::SendAlarmReportByCall(ref c) if c == "564"));
    // Silence: retry with the same code.
    match delivery.on_timeout() {
        Some(ModemCommand::SendAlarmReportByCall(c)) => assert_eq!(c, "564"),
        other => panic!("expected a retry, got {:?}", other),
    }
    // An explicit failure: retry again.
    match delivery.on_confirmation(false) {
        Some(ModemCommand::SendAlarmReportByCall(c)) => assert_eq!(c, "564"),
        other => panic!("expected a retry, got {:?}", other),
    }
    // Success ends the delivery; later timeouts are quiet.
    assert!(delivery.on_confirmation(true).is_none());
    assert!(delivery.on_timeout().is_none());
    assert!(delivery.on_confirmation(false).is_none());
}
