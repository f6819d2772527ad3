use zpl_toolchain_core::probe::{
    getvar_command, getvar_value, is_broken_pipe_error, is_timeout_error, probe_diagnosis, probe_success,
};

#[test]
fn getvar_command_quotes_the_setting() {
    assert_eq!(getvar_command("device.languages"), "! U1 getvar \"device.languages\"\r\n");
    assert_eq!(getvar_command(""), "! U1 getvar \"\"\r\n");
}

#[test]
fn getvar_value_takes_the_last_line_with_text() {
    assert_eq!(getvar_value("\"zpl\"\r\n").as_deref(), Some("\"zpl\""));
    assert_eq!(getvar_value("first\r\n  second  \r\n\r\n   \n").as_deref(), Some("second"));
    assert_eq!(getvar_value("only"), Some("only".to_string()));
}

#[test]
fn getvar_value_of_a_blank_reply_is_none() {
    assert_eq!(getvar_value(""), None);
    assert_eq!(getvar_value(" \r\n\t\n "), None);
}

#[test]
fn timeout_errors_are_recognised_in_any_case() {
    assert!(is_timeout_error("connection Timed Out"));
    assert!(is_timeout_error("read TIMEOUT after 5s"));
    assert!(!is_timeout_error("connection refused"));
    assert!(!is_timeout_error("time"));
}

#[test]
fn broken_pipe_errors_are_recognised_in_any_case() {
    assert!(is_broken_pipe_error("write failed: Broken pipe (os error 32)"));
    assert!(!is_broken_pipe_error("broken connection"));
}

#[test]
fn probe_diagnosis_covers_each_verdict() {
    assert_eq!(probe_diagnosis(true, false, 3, 3, 3), "bidirectional_serial_ok");
    assert_eq!(probe_diagnosis(true, true, 2, 3, 3), "intermittent_bidirectional_serial");
    assert_eq!(probe_diagnosis(false, true, 0, 0, 3), "write_path_only_or_response_blocked");
    assert_eq!(
        probe_diagnosis(false, false, 0, 0, 3),
        "serial_transport_not_viable_with_current_settings"
    );
}

#[test]
fn probe_success_follows_the_requested_rule() {
    assert!(probe_success(true, 3, 3, Some(false), false));
    assert!(!probe_success(true, 2, 3, Some(true), true));
    assert!(probe_success(false, 0, 3, Some(true), false));
    assert!(!probe_success(false, 3, 3, Some(false), true));
    assert!(probe_success(false, 1, 3, None, true));
    assert!(!probe_success(false, 0, 3, None, false));
}

use zpl_toolchain_core::probe::{bt_poll_new, bt_status_step, bt_status_vars, BtAction, BtEvent, BtPlan, BtPoll};

fn step(plan: &BtPlan, s: BtPoll, e: BtEvent) -> (BtPoll, BtAction) {
    bt_status_step(plan, s, e)
}

#[test]
fn bt_status_reads_each_setting_and_succeeds() {
    let plan = BtPlan { vars: vec!["bluetooth.enable".to_string(), "bluetooth.bonding".to_string()], retries: 2 };
    let (s, a) = step(&plan, bt_poll_new(), BtEvent::Start);
    assert!(matches!(a, BtAction::Connect));
    let (s, a) = step(&plan, s, BtEvent::Connected);
    match a {
        BtAction::Write(w) => assert_eq!(w, "! U1 getvar \"bluetooth.enable\"\r\n"),
        _ => panic!("expected a write"),
    }
    let (s, a) = step(&plan, s, BtEvent::Written);
    assert!(matches!(a, BtAction::Read));
    let (s, a) =
        step(&plan, s, BtEvent::ReadDone { reply: "\"on\"\r\n".to_string(), timed_out: true, error: None });
    assert!(matches!(a, BtAction::Connect));
    assert_eq!(s.results.len(), 1);
    assert_eq!(s.results[0].value.as_deref(), Some("\"on\""));
    assert!(s.results[0].timeout);
    let (s, _) = step(&plan, s, BtEvent::Connected);
    let (s, _) = step(&plan, s, BtEvent::Written);
    let (s, a) = step(&plan, s, BtEvent::ReadDone { reply: "1".to_string(), timed_out: false, error: None });
    assert!(matches!(a, BtAction::Finish(true)));
    assert_eq!(s.results.len(), 2);
    assert_eq!(s.results[1].name, "bluetooth.bonding");
    assert_eq!(s.results[1].value.as_deref(), Some("1"));
    assert!(!s.had_errors);
}

#[test]
fn bt_status_retries_then_gives_up() {
    let plan = BtPlan { vars: vec!["bluetooth.enable".to_string()], retries: 2 };
    let (s, _) = step(&plan, bt_poll_new(), BtEvent::Start);
    let (s, a) = step(&plan, s, BtEvent::ConnectFailed("refused".to_string()));
    assert!(matches!(a, BtAction::Sleep));
    let (s, a) = step(&plan, s, BtEvent::Slept);
    assert!(matches!(a, BtAction::Connect));
    assert_eq!(s.attempt, 2);
    let (s, a) = step(&plan, s, BtEvent::ConnectFailed("refused".to_string()));
    assert!(matches!(a, BtAction::Finish(false)));
    assert_eq!(s.results[0].error.as_deref(), Some("connect failed: refused"));
    assert!(s.had_errors);
}

#[test]
fn bt_status_empty_reply_is_no_response() {
    let plan = BtPlan { vars: bt_status_vars(), retries: 1 };
    assert_eq!(plan.vars.len(), 6);
    let (s, _) = step(&plan, bt_poll_new(), BtEvent::Start);
    let (s, _) = step(&plan, s, BtEvent::Connected);
    let (s, _) = step(&plan, s, BtEvent::Written);
    let (s, a) = step(&plan, s, BtEvent::ReadDone { reply: "  \r\n".to_string(), timed_out: false, error: None });
    assert!(matches!(a, BtAction::Connect));
    assert_eq!(s.results[0].value, None);
    assert_eq!(s.results[0].error.as_deref(), Some("no response"));
    assert!(s.had_errors);
}

#[test]
fn bt_status_setup_and_read_failures() {
    let plan = BtPlan { vars: vec!["bluetooth.enable".to_string()], retries: 2 };
    let (s, _) = step(&plan, bt_poll_new(), BtEvent::Start);
    let (s, _) = step(&plan, s, BtEvent::Connected);
    let (s, _) = step(&plan, s, BtEvent::Written);
    let (s, a) = step(
        &plan,
        s,
        BtEvent::ReadDone { reply: String::new(), timed_out: false, error: Some("reset".to_string()) },
    );
    assert!(matches!(a, BtAction::Sleep));
    let (s, _) = step(&plan, s, BtEvent::Slept);
    let (s, a) = step(&plan, s, BtEvent::SetupFailed { read: true, message: "bad".to_string() });
    assert!(matches!(a, BtAction::Finish(false)));
    assert_eq!(s.results[0].error.as_deref(), Some("read timeout setup failed: bad"));
}
