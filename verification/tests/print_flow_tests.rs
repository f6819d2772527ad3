use zpl_toolchain_core::diag::{Diagnostic, Severity};
use zpl_toolchain_core::print_flow::{
    choose_transport, hard_faults, session_next, validation_gate, HostFlags, PrintGate,
    SessionAction, SessionEvent, SessionFailure, SessionPlan, SessionState, Stage, Transport,
};

#[test]
fn transports_from_addresses() {
    assert_eq!(choose_transport("192.168.1.50", false, false), Ok(Transport::Tcp));
    assert_eq!(choose_transport("usb", false, false), Ok(Transport::UsbAuto));
    assert_eq!(choose_transport("usb:0A5F:0100", false, false), Ok(Transport::UsbDevice(0x0A5F, 0x0100)));
    assert_eq!(choose_transport("usb:0A5F:0100", false, true), Ok(Transport::UsbAuto));
    assert_eq!(choose_transport("/dev/cu.zebra", true, false), Ok(Transport::Serial));
    assert_eq!(
        choose_transport("usb", true, false),
        Err("--serial cannot be used with USB printer address 'usb'".to_string())
    );
    assert_eq!(
        choose_transport("COM5", false, false),
        Err("'COM5' looks like a serial port — add --serial to use serial transport.\n  Example: zpl print <FILE> -p COM5 --serial".to_string())
    );
    let mac = choose_transport("AA:BB:CC:DD:EE:FF", true, false).unwrap_err();
    assert!(mac.starts_with("'AA:BB:CC:DD:EE:FF' looks like a Bluetooth MAC address. With --serial"));
    let mac2 = choose_transport("AA:BB:CC:DD:EE:FF", false, true).unwrap_err();
    assert!(mac2.contains("For Bluetooth/serial printers"));
    assert_eq!(choose_transport("usb:zz", false, false), Err("invalid USB address 'zz': expected usb:VID:PID".to_string()));
}

fn diag(sev: Severity) -> Diagnostic {
    Diagnostic::new("X", sev, "m".to_string(), None)
}

#[test]
fn validation_gate_decisions() {
    assert_eq!(validation_gate(&vec![diag(Severity::Info)], true), PrintGate::Proceed);
    assert_eq!(validation_gate(&vec![diag(Severity::Warn)], false), PrintGate::Proceed);
    assert_eq!(validation_gate(&vec![diag(Severity::Warn)], true), PrintGate::AbortOnWarnings);
    assert_eq!(validation_gate(&vec![diag(Severity::Warn), diag(Severity::Error)], true), PrintGate::AbortOnErrors);
}

fn flags() -> HostFlags {
    HostFlags {
        paper_out: false,
        ribbon_out: false,
        head_up: false,
        paused: false,
        over_temperature: false,
        under_temperature: false,
        corrupt_ram: false,
        buffer_full: false,
    }
}

#[test]
fn hard_faults_in_fixed_order() {
    assert!(hard_faults(&flags()).is_empty());
    let mut f = flags();
    f.paused = true;
    f.paper_out = true;
    f.corrupt_ram = true;
    assert_eq!(hard_faults(&f), vec!["paper_out", "corrupt_ram", "paused"]);
}

fn run(plan: SessionPlan, events: Vec<SessionEvent>) -> Vec<SessionAction> {
    let mut state = SessionState { stage: Stage::Start, last_status: None };
    let mut actions = Vec::new();
    let mut event = SessionEvent::Begin;
    let mut rest = events.into_iter();
    loop {
        let (next, action) = session_next(&plan, &state, &event);
        state = next;
        let done = matches!(action, SessionAction::Finish | SessionAction::Fail(_));
        actions.push(action);
        if done {
            return actions;
        }
        event = rest.next().expect("session asked for more than the scripted events");
    }
}

#[test]
fn session_sends_files_then_finishes() {
    let plan = SessionPlan { info: true, status: false, verify: false, wait: false, file_count: 2 };
    let actions = run(plan, vec![SessionEvent::InfoDone, SessionEvent::Sent(true), SessionEvent::Sent(true)]);
    assert_eq!(
        actions,
        vec![SessionAction::QueryInfo, SessionAction::SendFile(0), SessionAction::SendFile(1), SessionAction::Finish]
    );
}

#[test]
fn session_fails_on_send_and_on_faults() {
    let plan = SessionPlan { info: false, status: false, verify: false, wait: false, file_count: 2 };
    let actions = run(plan, vec![SessionEvent::Sent(false)]);
    assert_eq!(actions.last(), Some(&SessionAction::Fail(SessionFailure::SendFailed(0))));

    let mut f = flags();
    f.head_up = true;
    let plan = SessionPlan { info: false, status: false, verify: true, wait: true, file_count: 1 };
    let actions = run(
        plan,
        vec![
            SessionEvent::Sent(true),
            SessionEvent::StatusRead(Some(flags())),
            SessionEvent::WaitDone(true),
            SessionEvent::StatusRead(Some(f)),
        ],
    );
    assert_eq!(
        actions,
        vec![
            SessionAction::SendFile(0),
            SessionAction::QueryStatus,
            SessionAction::WaitForCompletion,
            SessionAction::QueryStatus,
            SessionAction::Fail(SessionFailure::Faults(vec!["head_up".to_string()])),
        ]
    );
}

#[test]
fn status_read_failure_only_matters_when_verifying() {
    let plan = SessionPlan { info: false, status: true, verify: false, wait: false, file_count: 1 };
    let actions = run(plan, vec![SessionEvent::Sent(true), SessionEvent::StatusRead(None)]);
    assert_eq!(actions.last(), Some(&SessionAction::Finish));
    let plan = SessionPlan { info: false, status: true, verify: true, wait: false, file_count: 1 };
    let actions = run(plan, vec![SessionEvent::Sent(true), SessionEvent::StatusRead(None)]);
    assert_eq!(actions.last(), Some(&SessionAction::Fail(SessionFailure::StatusUnavailable)));
}
