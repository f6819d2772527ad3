use zpl_toolchain_core::ast::{ArgSlot, Node, Presence};
use zpl_toolchain_core::constraints::validate_command_constraints;
use zpl_toolchain_core::context::{CommandCtx, ValidationContext};
use zpl_toolchain_core::diag::{Diagnostic, Severity, SeverityRegistry, Span};
use zpl_toolchain_core::field::{char_in_set, validate_barcode_field_data};
use zpl_toolchain_core::state::DeviceState;
use zpl_toolchain_core::tables::{
    CommandEntry, CommandScope, Constraint, ConstraintKind, ConstraintScope, ConstraintSeverity,
    FieldDataRules, NoteAudience,
};

fn rules() -> FieldDataRules {
    FieldDataRules {
        character_set: None,
        character_set_severity: None,
        exact_length: None,
        allowed_lengths: None,
        min_length: None,
        max_length: None,
        length_parity: None,
        length_severity: None,
    }
}

fn ctx_of(d: &Diagnostic) -> Vec<(String, String)> {
    d.context.clone().unwrap_or_default()
}

#[test]
fn char_sets_with_ranges_and_escapes() {
    assert!(char_in_set('5', "0-9"));
    assert!(char_in_set('q', "z-a"));
    assert!(char_in_set('-', "A\\-Z"));
    assert!(!char_in_set('B', "A\\-Z"));
    assert!(char_in_set(' ', "A-Z "));
    assert!(!char_in_set('a', "A-Z"));
    assert!(!char_in_set('x', ""));
}

#[test]
fn barcode_data_invalid_char_and_exact_length() {
    let mut r = rules();
    r.character_set = Some("0-9".to_string());
    r.exact_length = Some(12);
    let span = Some(Span { start: 4, end: 8 });
    let mut issues = Vec::new();
    validate_barcode_field_data("^BE", "12A4", &r, span, &mut issues);
    assert_eq!(issues.len(), 2);
    assert_eq!(issues[0].id, "ZPL2401");
    assert_eq!(issues[0].severity, Severity::Error);
    assert_eq!(
        issues[0].message,
        "invalid character 'A' at position 2 in ^BE field data (allowed: [0-9])"
    );
    assert_eq!(
        ctx_of(&issues[0]),
        vec![
            ("allowedSet".to_string(), "0-9".to_string()),
            ("character".to_string(), "A".to_string()),
            ("command".to_string(), "^BE".to_string()),
            ("position".to_string(), "2".to_string()),
        ]
    );
    assert_eq!(issues[1].id, "ZPL2402");
    assert_eq!(issues[1].severity, Severity::Warn);
    assert_eq!(issues[1].message, "^BE field data length 4 (expected exactly 12)");
    assert_eq!(issues[1].span, span);
}

#[test]
fn barcode_data_allowed_lengths_min_max_and_parity() {
    let mut r = rules();
    r.allowed_lengths = Some(vec![7, 8, 12]);
    r.length_parity = Some("even".to_string());
    r.length_severity = Some(ConstraintSeverity::Error);
    let mut issues = Vec::new();
    validate_barcode_field_data("^B8", "12345", &r, None, &mut issues);
    assert_eq!(issues.len(), 2);
    assert_eq!(issues[0].message, "^B8 field data length 5 (expected one of [7, 8, 12])");
    assert_eq!(issues[0].severity, Severity::Error);
    assert_eq!(issues[1].message, "^B8 field data length 5 should be even (got odd)");

    let mut r2 = rules();
    r2.min_length = Some(3);
    r2.max_length = Some(1);
    let mut issues2 = Vec::new();
    validate_barcode_field_data("^BC", "ab", &r2, None, &mut issues2);
    assert_eq!(issues2.len(), 2);
    assert_eq!(issues2[0].message, "^BC field data too short: 2 chars (minimum 3)");
    assert_eq!(issues2[1].message, "^BC field data too long: 2 chars (maximum 1)");

    let mut ok = Vec::new();
    validate_barcode_field_data("^BC", "abcd", &rules(), None, &mut ok);
    assert!(ok.is_empty());
}

fn constraint(kind: ConstraintKind, expr: Option<&str>, scope: Option<ConstraintScope>) -> Constraint {
    Constraint {
        kind,
        expr: expr.map(|e| e.to_string()),
        message: "msg".to_string(),
        severity: None,
        scope,
        audience: None,
    }
}

fn entry(constraints: Vec<Constraint>) -> CommandEntry {
    CommandEntry {
        codes: vec!["^FD".to_string()],
        arity: 0,
        field_data: true,
        raw_payload: false,
        opens_field: false,
        closes_field: false,
        hex_escape_modifier: false,
        field_number: false,
        serialization: false,
        requires_field: false,
        signature: None,
        signature_overrides: None,
        scope: Some(CommandScope::Field),
        constraints: Some(constraints),
        constraint_default_severity: Some(ConstraintSeverity::Error),
        has_effects: false,
        structural_rules: None,
        field_data_rules: None,
        printer_gates: None,
        plane: None,
        placement: None,
        args: None,
    }
}

fn codes(list: &[&str]) -> Vec<String> {
    list.iter().map(|s| s.to_string()).collect()
}

#[test]
fn constraints_report_order_requires_incompatible_and_empty_data() {
    let mut note = constraint(ConstraintKind::Note, Some("when:label:has:^BY"), None);
    note.audience = Some(NoteAudience::Contextual);
    note.severity = Some(ConstraintSeverity::Info);
    let cmd = entry(vec![
        constraint(ConstraintKind::Order, Some("after:^FO"), None),
        constraint(ConstraintKind::Requires, Some("^XA"), None),
        constraint(ConstraintKind::Incompatible, Some("^GF|^BY"), Some(ConstraintScope::Label)),
        constraint(ConstraintKind::EmptyData, None, None),
        note,
        constraint(ConstraintKind::Range, Some("x"), None),
    ]);
    let args = vec![ArgSlot { key: Some("data".to_string()), presence: Presence::Empty, value: None }];
    let nodes = vec![
        Node::Command { code: "^FD".to_string(), args: args.clone(), span: Span { start: 0, end: 3 } },
        Node::Command { code: "^FS".to_string(), args: Vec::new(), span: Span { start: 3, end: 6 } },
    ];
    let label_codes = codes(&["^FD", "^FS", "^BY"]);
    let device = DeviceState::default();
    let severities = SeverityRegistry { entries: Vec::new() };
    let vctx = ValidationContext {
        profile: None,
        label_nodes: &nodes,
        label_codes: &label_codes,
        device_state: &device,
        severities: &severities,
    };
    let cctx = CommandCtx { code: "^FD", args: &args, cmd: &cmd, span: Some(Span { start: 0, end: 3 }), node_idx: 0 };
    let seen_label = codes(&["^BY"]);
    let seen_field: Vec<String> = Vec::new();
    let mut issues = Vec::new();
    validate_command_constraints(&cctx, &vctx, &seen_label, &seen_field, None, &mut issues);
    let ids: Vec<&str> = issues.iter().map(|d| d.id.as_str()).collect();
    assert_eq!(ids, vec!["ZPL2102", "ZPL2103", "ZPL2104", "ZPL2105"]);
    assert_eq!(issues[0].severity, Severity::Error);
    assert_eq!(
        ctx_of(&issues[0]),
        vec![
            ("command".to_string(), "^FD".to_string()),
            ("kind".to_string(), "order".to_string()),
            ("scope".to_string(), "field".to_string()),
            ("target".to_string(), "^FO".to_string()),
        ]
    );
    assert_eq!(ctx_of(&issues[2])[2], ("scope".to_string(), "label".to_string()));

    let seen_field2 = codes(&["^BY"]);
    let mut issues2 = Vec::new();
    validate_command_constraints(&cctx, &vctx, &seen_label, &seen_field2, None, &mut issues2);
    assert_eq!(issues2.len(), 5);
    assert_eq!(issues2[4].id, "ZPL3001");
    assert_eq!(issues2[4].severity, Severity::Info);
    assert_eq!(ctx_of(&issues2[4])[0], ("audience".to_string(), "contextual".to_string()));
}

#[test]
fn empty_data_sees_trailing_field_data() {
    let cmd = entry(vec![constraint(ConstraintKind::EmptyData, None, None)]);
    let args: Vec<ArgSlot> = Vec::new();
    let nodes = vec![
        Node::Command { code: "^FD".to_string(), args: Vec::new(), span: Span { start: 0, end: 3 } },
        Node::FieldData { content: "x".to_string(), hex_escaped: false, span: Span { start: 3, end: 4 } },
    ];
    let label_codes = codes(&["^FD"]);
    let device = DeviceState::default();
    let severities = SeverityRegistry { entries: Vec::new() };
    let vctx = ValidationContext {
        profile: None,
        label_nodes: &nodes,
        label_codes: &label_codes,
        device_state: &device,
        severities: &severities,
    };
    let cctx = CommandCtx { code: "^FD", args: &args, cmd: &cmd, span: None, node_idx: 0 };
    let mut issues = Vec::new();
    validate_command_constraints(&cctx, &vctx, &label_codes, &label_codes, None, &mut issues);
    assert!(issues.is_empty());
}
