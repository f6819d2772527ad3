use zpl_toolchain_core::cli::{
    artifact_uri_for_file, ensure_nonzero, filter_contextual_notes, looks_like_bluetooth_mac,
    looks_like_serial_port, mapped_tty_cu_peer, parse_usb_vidpid, summary_parts, NoteAudienceMode,
    clamp_span, context_note, label_message, plain_report_line,
};
use zpl_toolchain_core::diag::{Diagnostic, Severity, Span};

#[test]
fn serial_port_patterns() {
    assert!(looks_like_serial_port("/dev/ttyUSB0"));
    assert!(looks_like_serial_port("/dev/cu.usbmodem1"));
    assert!(looks_like_serial_port("/dev/rfcomm0"));
    assert!(looks_like_serial_port("/dev/serial/by-id/x"));
    assert!(looks_like_serial_port("COM3"));
    assert!(looks_like_serial_port("com10"));
    assert!(!looks_like_serial_port("COM"));
    assert!(!looks_like_serial_port("COMx"));
    assert!(!looks_like_serial_port("192.168.1.50"));
}

#[test]
fn bluetooth_mac_patterns() {
    assert!(looks_like_bluetooth_mac("AA:BB:CC:DD:EE:FF"));
    assert!(looks_like_bluetooth_mac("00-1a-2b-3c-4d-5e"));
    assert!(!looks_like_bluetooth_mac("AA:BB-CC:DD:EE:FF"));
    assert!(!looks_like_bluetooth_mac("AA:BB:CC:DD:EE"));
    assert!(!looks_like_bluetooth_mac("GG:BB:CC:DD:EE:FF"));
    assert!(!looks_like_bluetooth_mac(""));
    assert!(looks_like_bluetooth_mac("60:95:32:1C:7A:10"));
    assert!(!looks_like_bluetooth_mac("127.0.0.1"));
    assert!(!looks_like_bluetooth_mac("0123456789AB:::::"));
    assert!(!looks_like_bluetooth_mac("A:BB:CC:DD:EE:FFF"));
}

#[test]
fn tty_cu_peers() {
    assert_eq!(mapped_tty_cu_peer("/dev/cu.usbserial"), Some("/dev/tty.usbserial".to_string()));
    assert_eq!(mapped_tty_cu_peer("/dev/tty.usbserial"), Some("/dev/cu.usbserial".to_string()));
    assert_eq!(mapped_tty_cu_peer("/dev/ttyUSB0"), None);
}

#[test]
fn usb_vid_pid_parsing() {
    assert_eq!(parse_usb_vidpid("0A5F:0100"), Ok((0x0A5F, 0x0100)));
    assert_eq!(parse_usb_vidpid("+a5f:ff"), Ok((0x0A5F, 0xFF)));
    assert_eq!(
        parse_usb_vidpid("0A5F"),
        Err("invalid USB address '0A5F': expected usb:VID:PID".to_string())
    );
    assert_eq!(parse_usb_vidpid("XYZ:0100"), Err("invalid USB vendor ID 'XYZ'".to_string()));
    assert_eq!(parse_usb_vidpid("0A5F:10000"), Err("invalid USB product ID '10000'".to_string()));
    assert_eq!(parse_usb_vidpid("0A5F:01:00"), Err("invalid USB product ID '01:00'".to_string()));
}

#[test]
fn artifact_uri_names_stdin() {
    assert_eq!(artifact_uri_for_file("-"), "stdin");
    assert_eq!(artifact_uri_for_file("labels/a.zpl"), "labels/a.zpl");
}

fn note(audience: Option<&str>) -> Diagnostic {
    let mut d = Diagnostic::new("ZPL3001", Severity::Info, "n".to_string(), None);
    let mut ctx = vec![("command".to_string(), "^FO".to_string())];
    if let Some(a) = audience {
        ctx.insert(0, ("audience".to_string(), a.to_string()));
    }
    d = d.with_context(ctx);
    d
}

#[test]
fn contextual_notes_are_filtered_for_problem_audience() {
    let other = Diagnostic::new("ZPL2101", Severity::Warn, "w".to_string(), None);
    let mut issues = vec![note(Some("contextual")), other.clone(), note(Some("problem")), note(None)];
    let mut all = issues.clone();
    filter_contextual_notes(&mut all, NoteAudienceMode::All);
    assert_eq!(all.len(), 4);
    filter_contextual_notes(&mut issues, NoteAudienceMode::Problem);
    assert_eq!(issues.len(), 3);
    assert_eq!(issues[0], other);
}

#[test]
fn nonzero_settings() {
    assert_eq!(ensure_nonzero("timeouts.connect_ms", 5), Ok(5));
    assert_eq!(ensure_nonzero("timeouts.connect_ms", 0), Err("timeouts.connect_ms must be > 0".to_string()));
}

#[test]
fn summary_parts_count_each_severity_and_skip_zero_counts() {
    let d = |sev: Severity| Diagnostic { id: "X".to_string(), severity: sev, message: String::new(), span: None, context: None };
    let ds = vec![d(Severity::Error), d(Severity::Info), d(Severity::Error), d(Severity::Info), d(Severity::Info)];
    let parts = summary_parts(&ds);
    assert_eq!(
        parts,
        vec![(Severity::Error, "2 errors".to_string()), (Severity::Info, "3 info".to_string())]
    );
    let one = vec![d(Severity::Warn)];
    assert_eq!(summary_parts(&one), vec![(Severity::Warn, "1 warning".to_string())]);
    assert!(summary_parts(&Vec::new()).is_empty());
}

#[test]
fn report_text_comes_from_context_or_message() {
    let mut d = Diagnostic {
        id: "ZPL2301".to_string(),
        severity: Severity::Warn,
        message: "Duplicate field number 1".to_string(),
        span: None,
        context: None,
    };
    assert_eq!(label_message(&d), "Duplicate field number 1");
    assert_eq!(context_note(&d), None);
    assert_eq!(plain_report_line(&d), "warning[ZPL2301]: Duplicate field number 1");
    d.context = Some(Vec::new());
    assert_eq!(label_message(&d), "Duplicate field number 1");
    assert_eq!(context_note(&d), Some(String::new()));
    d.context = Some(vec![
        ("command".to_string(), "^FN".to_string()),
        ("field_number".to_string(), "1".to_string()),
    ]);
    assert_eq!(label_message(&d), "command=^FN, field_number=1");
    assert_eq!(context_note(&d), Some("command=^FN, field_number=1".to_string()));
    d.severity = Severity::Info;
    assert_eq!(plain_report_line(&d), "info[ZPL2301]: Duplicate field number 1");
}

#[test]
fn spans_are_clamped_to_the_source() {
    assert_eq!(clamp_span(Span { start: 2, end: 5 }, 10), (2, 5));
    assert_eq!(clamp_span(Span { start: 2, end: 50 }, 10), (2, 10));
    assert_eq!(clamp_span(Span { start: 20, end: 50 }, 10), (10, 10));
    assert_eq!(clamp_span(Span { start: 6, end: 3 }, 10), (6, 6));
}
