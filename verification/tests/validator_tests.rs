use zpl_toolchain_core::ast::{ArgSlot, Label, Node, Presence};
use zpl_toolchain_core::context::{CommandCtx, ValidationContext};
use zpl_toolchain_core::diag::{Diagnostic, Severity, SeverityRegistry, Span};
use zpl_toolchain_core::label_state::LabelState;
use zpl_toolchain_core::pipeline::{
    apply_effects_and_arity, build_field_membership, collect_label_codes, emit_empty_label_diagnostic,
    emit_unclosed_field_diagnostic, enforce_placement, enforce_printer_gates, first_command_span,
    last_command_span, run_label_preflight, update_session_state,
};
use zpl_toolchain_core::plan::{EffectIndexView, LabelExecutionPlan, StructuralFlags, ValidationPlanContext};
use zpl_toolchain_core::preflight::validate_preflight;
use zpl_toolchain_core::profile::{Media, Memory, Page, PrintMethod, Profile};
use zpl_toolchain_core::semantic::{
    run_semantic_rule, validate_field_number, validate_font_reference, validate_gf_data_length,
    validate_media_modes, validate_structural_semantics,
};
use zpl_toolchain_core::state::{DeviceState, Units};
use zpl_toolchain_core::tables::{
    CommandEntry, CommandScope, FieldDataRules, FontReferenceAction, MediaModesTarget, ParserTables,
    Placement, Plane, PositionBoundsAction, StructuralRule,
};
use zpl_toolchain_core::tracker::FieldTracker;

fn entry(codes: &[&str]) -> CommandEntry {
    CommandEntry {
        codes: codes.iter().map(|c| c.to_string()).collect(),
        arity: 2,
        field_data: false,
        raw_payload: false,
        opens_field: false,
        closes_field: false,
        hex_escape_modifier: false,
        field_number: false,
        serialization: false,
        requires_field: false,
        signature: None,
        signature_overrides: None,
        scope: None,
        constraints: None,
        constraint_default_severity: None,
        has_effects: false,
        structural_rules: None,
        field_data_rules: None,
        printer_gates: None,
        plane: None,
        placement: None,
        args: None,
    }
}

fn no_rules() -> FieldDataRules {
    FieldDataRules {
        character_set: None,
        character_set_severity: None,
        exact_length: None,
        allowed_lengths: None,
        min_length: None,
        max_length: None,
        length_parity: None,
        length_severity: None,
    }
}

fn flags() -> StructuralFlags {
    StructuralFlags {
        opens_field: false,
        closes_field: false,
        field_data: false,
        field_number: false,
        serialization: false,
        requires_field: false,
        hex_escape_modifier: false,
    }
}

fn val(v: &str) -> ArgSlot {
    ArgSlot { key: None, presence: Presence::Value, value: Some(v.to_string()) }
}

fn cmd_node(code: &str, args: Vec<ArgSlot>, at: usize) -> Node {
    Node::Command { code: code.to_string(), args, span: Span { start: at, end: at + 3 } }
}

fn ctx_of(d: &Diagnostic) -> Vec<(String, String)> {
    d.context.clone().unwrap_or_default()
}

fn kv(k: &str, v: &str) -> (String, String) {
    (k.to_string(), v.to_string())
}

fn empty_registry() -> SeverityRegistry {
    SeverityRegistry { entries: Vec::new() }
}

fn profile() -> Profile {
    Profile { id: "zt410".to_string(), dpi: 203, page: None, features: None, memory: None, media: None }
}

/// Runs the tracker over every command node of `nodes`, with the given
/// flags per command code.
fn run_tracker(nodes: &[Node], entries: &[(&str, StructuralFlags, &CommandEntry)], reg: &SeverityRegistry) -> (bool, Vec<Diagnostic>) {
    let device = DeviceState::default();
    let codes: Vec<String> = Vec::new();
    let vctx = ValidationContext { profile: None, label_nodes: nodes, label_codes: &codes, device_state: &device, severities: reg };
    let mut tracker = FieldTracker::new();
    let mut issues = Vec::new();
    for (i, nd) in nodes.iter().enumerate() {
        if let Node::Command { code, args, span } = nd {
            let found = entries.iter().find(|e| e.0 == code.as_str());
            if let Some((_, f, cmd)) = found {
                let cctx = CommandCtx { code: code.as_str(), args, cmd, span: Some(*span), node_idx: i };
                tracker.process_command(&cctx, &vctx, *f, &mut issues);
            }
        }
    }
    (tracker.open, issues)
}

#[test]
fn tracker_reports_orphaned_field_separator() {
    let fs = entry(&["^FS"]);
    let mut close = flags();
    close.closes_field = true;
    let nodes = vec![cmd_node("^FS", vec![], 0)];
    let reg = empty_registry();
    let (open, issues) = run_tracker(&nodes, &[("^FS", close, &fs)], &reg);
    assert!(!open);
    assert_eq!(issues.len(), 1);
    assert_eq!(issues[0].id, "ZPL2204");
    assert_eq!(issues[0].severity, Severity::Warn);
    assert_eq!(issues[0].message, "^FS without a preceding field origin (orphaned field separator)");
    assert_eq!(ctx_of(&issues[0]), vec![kv("command", "^FS")]);
}

#[test]
fn tracker_reports_field_opened_over_open_field_and_data_without_origin() {
    let fo = entry(&["^FO"]);
    let fd = entry(&["^FD"]);
    let mut open = flags();
    open.opens_field = true;
    let mut data = flags();
    data.field_data = true;
    let nodes = vec![cmd_node("^FD", vec![val("x")], 0), cmd_node("^FO", vec![], 3), cmd_node("^FO", vec![], 6)];
    let reg = SeverityRegistry { entries: vec![("ZPL2203".to_string(), Severity::Error)] };
    let (still_open, issues) = run_tracker(&nodes, &[("^FO", open, &fo), ("^FD", data, &fd)], &reg);
    assert!(still_open);
    assert_eq!(issues.len(), 2);
    assert_eq!(issues[0].id, "ZPL2201");
    assert_eq!(issues[0].message, "^FD without preceding field origin (no field origin)");
    assert_eq!(issues[1].id, "ZPL2203");
    assert_eq!(issues[1].severity, Severity::Error);
    assert_eq!(issues[1].message, "^FO opens a new field before previous field was closed with ^FS");
    assert_eq!(issues[1].span, Some(Span { start: 6, end: 9 }));
}

#[test]
fn tracker_checks_hex_escapes_with_custom_indicator_on_close() {
    let fo = entry(&["^FO"]);
    let fh = entry(&["^FH"]);
    let fd = entry(&["^FD"]);
    let fs = entry(&["^FS"]);
    let mut open = flags();
    open.opens_field = true;
    let mut hex = flags();
    hex.hex_escape_modifier = true;
    let mut data = flags();
    data.field_data = true;
    let mut close = flags();
    close.closes_field = true;
    let nodes = vec![
        cmd_node("^FO", vec![], 0),
        cmd_node("^FH", vec![val("#")], 3),
        cmd_node("^FD", vec![val("a#4Fb#ZZ")], 6),
        Node::FieldData { content: "x#1".to_string(), hex_escaped: true, span: Span { start: 20, end: 23 } },
        cmd_node("^FS", vec![], 23),
    ];
    let reg = empty_registry();
    let table = [("^FO", open, &fo), ("^FH", hex, &fh), ("^FD", data, &fd), ("^FS", close, &fs)];
    let (still_open, issues) = run_tracker(&nodes, &table, &reg);
    assert!(!still_open);
    assert_eq!(issues.len(), 2);
    assert_eq!(issues[0].id, "ZPL2304");
    assert_eq!(issues[0].message, "Invalid hex escape sequence #ZZ (expected two hex digits 0-9, A-F after '#')");
    assert_eq!(issues[0].span, Some(Span { start: 6, end: 9 }));
    assert_eq!(ctx_of(&issues[0]), vec![kv("command", "^FH"), kv("indicator", "#")]);
    assert_eq!(issues[1].message, "Incomplete hex escape sequence at offset 1 (expected '#XX' but input ends)");
    assert_eq!(issues[1].span, Some(Span { start: 20, end: 23 }));
}

#[test]
fn tracker_reports_serialization_without_field_number() {
    let fo = entry(&["^FO"]);
    let sn = entry(&["^SN"]);
    let fs = entry(&["^FS"]);
    let mut open = flags();
    open.opens_field = true;
    let mut serial = flags();
    serial.serialization = true;
    let mut close = flags();
    close.closes_field = true;
    let nodes = vec![cmd_node("^FO", vec![], 0), cmd_node("^SN", vec![], 3), cmd_node("^FS", vec![], 6)];
    let reg = empty_registry();
    let (_, issues) = run_tracker(&nodes, &[("^FO", open, &fo), ("^SN", serial, &sn), ("^FS", close, &fs)], &reg);
    assert_eq!(issues.len(), 1);
    assert_eq!(issues[0].id, "ZPL2306");
    assert_eq!(issues[0].message, "Serialization (^SN/^SF) in field without ^FN field number");
    assert_eq!(ctx_of(&issues[0]), vec![kv("command", "^SN/^SF")]);
}

#[test]
fn tracker_checks_barcode_data_joined_across_pieces() {
    let fo = entry(&["^FO"]);
    let mut bc = entry(&["^BC"]);
    let mut rules = no_rules();
    rules.character_set = Some("0-9".to_string());
    rules.exact_length = Some(6);
    bc.field_data_rules = Some(rules);
    let fd = entry(&["^FD"]);
    let fs = entry(&["^FS"]);
    let mut open = flags();
    open.opens_field = true;
    let mut data = flags();
    data.field_data = true;
    let mut close = flags();
    close.closes_field = true;
    let table = [("^FO", open, &fo), ("^BC", flags(), &bc), ("^FD", data, &fd), ("^FS", close, &fs)];
    let reg = empty_registry();

    // "123" then "456": checked as one payload of six digits.
    let good = vec![
        cmd_node("^FO", vec![], 0),
        cmd_node("^BC", vec![], 3),
        cmd_node("^FD", vec![val("123")], 6),
        Node::FieldData { content: "456".to_string(), hex_escaped: false, span: Span { start: 12, end: 15 } },
        cmd_node("^FS", vec![], 15),
    ];
    let (_, issues) = run_tracker(&good, &table, &reg);
    assert!(issues.is_empty());

    let bad = vec![
        cmd_node("^FO", vec![], 0),
        cmd_node("^BC", vec![], 3),
        cmd_node("^FD", vec![val("12")], 6),
        Node::FieldData { content: "3A".to_string(), hex_escaped: false, span: Span { start: 12, end: 14 } },
        cmd_node("^FS", vec![], 14),
    ];
    let (_, issues) = run_tracker(&bad, &table, &reg);
    assert_eq!(issues.len(), 2);
    assert_eq!(issues[0].id, "ZPL2401");
    assert_eq!(issues[0].message, "invalid character 'A' at position 3 in ^BC field data (allowed: [0-9])");
    assert_eq!(issues[0].span, Some(Span { start: 6, end: 9 }));
    assert_eq!(issues[1].message, "^BC field data length 4 (expected exactly 6)");
}

#[test]
fn tracker_skips_barcode_data_when_hex_escapes_are_on() {
    let fo = entry(&["^FO"]);
    let mut bc = entry(&["^BC"]);
    let mut rules = no_rules();
    rules.exact_length = Some(6);
    bc.field_data_rules = Some(rules);
    let fh = entry(&["^FH"]);
    let fd = entry(&["^FD"]);
    let fs = entry(&["^FS"]);
    let mut open = flags();
    open.opens_field = true;
    let mut hex = flags();
    hex.hex_escape_modifier = true;
    let mut close = flags();
    close.closes_field = true;
    let nodes = vec![
        cmd_node("^FO", vec![], 0),
        cmd_node("^BC", vec![], 3),
        cmd_node("^FH", vec![], 6),
        cmd_node("^FD", vec![val("_41")], 9),
        cmd_node("^FS", vec![], 15),
    ];
    let reg = empty_registry();
    let table = [("^FO", open, &fo), ("^BC", flags(), &bc), ("^FH", hex, &fh), ("^FD", flags(), &fd), ("^FS", close, &fs)];
    let (_, issues) = run_tracker(&nodes, &table, &reg);
    assert!(issues.is_empty());
}

#[test]
fn tracker_resets_after_closing_a_field() {
    let fo = entry(&["^FO"]);
    let fs = entry(&["^FS"]);
    let mut open = flags();
    open.opens_field = true;
    let mut close = flags();
    close.closes_field = true;
    let nodes = vec![cmd_node("^FO", vec![], 0), cmd_node("^FS", vec![], 3), cmd_node("^FS", vec![], 6)];
    let reg = empty_registry();
    let (open_now, issues) = run_tracker(&nodes, &[("^FO", open, &fo), ("^FS", close, &fs)], &reg);
    assert!(!open_now);
    assert_eq!(issues.len(), 1);
    assert_eq!(issues[0].id, "ZPL2204");
    assert_eq!(issues[0].span, Some(Span { start: 6, end: 9 }));
}

#[test]
fn severity_registry_first_entry_wins_and_defaults_to_warning() {
    let reg = SeverityRegistry {
        entries: vec![
            ("ZPL2301".to_string(), Severity::Error),
            ("ZPL2301".to_string(), Severity::Info),
        ],
    };
    assert_eq!(reg.severity_for_code("ZPL2301"), Some(Severity::Error));
    assert_eq!(reg.severity_for_code("ZPL9999"), None);
    assert_eq!(reg.severity_of("ZPL2301"), Severity::Error);
    assert_eq!(reg.severity_of("ZPL9999"), Severity::Warn);
}

#[test]
fn label_state_records_and_consumes_producers() {
    let mut s = LabelState::new();
    assert!(!s.has_producer("^BY"));
    s.record_producer("^BY", 2);
    s.record_producer("^BY", 5);
    assert!(s.has_producer("^BY"));
    assert_eq!(s.producers_seen, vec!["^BY".to_string()]);
    assert_eq!(s.last_producer_idx, vec![("^BY".to_string(), 5)]);
    assert_eq!(s.producer_consumed, vec![("^BY".to_string(), false)]);
    s.mark_consumed("^BY");
    s.mark_consumed("^CF");
    assert_eq!(s.producer_consumed, vec![("^BY".to_string(), true)]);
}

fn with_vctx<R>(nodes: &[Node], profile: Option<&Profile>, f: impl FnOnce(&ValidationContext) -> R) -> R {
    let device = DeviceState::default();
    let codes: Vec<String> = Vec::new();
    let reg = empty_registry();
    let vctx = ValidationContext { profile, label_nodes: nodes, label_codes: &codes, device_state: &device, severities: &reg };
    f(&vctx)
}

#[test]
fn duplicate_field_numbers_are_reported_with_first_use() {
    let fnc = entry(&["^FN"]);
    let nodes: Vec<Node> = Vec::new();
    let args1 = vec![val("1")];
    let mut state = LabelState::new();
    let mut issues = Vec::new();
    with_vctx(&nodes, None, |vctx| {
        let c0 = CommandCtx { code: "^FN", args: &args1, cmd: &fnc, span: None, node_idx: 0 };
        validate_field_number(&c0, vctx, 0, &mut state, &mut issues);
        let c4 = CommandCtx { code: "^FN", args: &args1, cmd: &fnc, span: Some(Span { start: 9, end: 12 }), node_idx: 4 };
        validate_field_number(&c4, vctx, 0, &mut state, &mut issues);
        validate_field_number(&c4, vctx, 3, &mut state, &mut issues);
    });
    assert_eq!(state.field_numbers, vec![("1".to_string(), 0)]);
    assert_eq!(issues.len(), 1);
    assert_eq!(issues[0].id, "ZPL2301");
    assert_eq!(issues[0].message, "Duplicate field number 1 (first used at node 0)");
    assert_eq!(ctx_of(&issues[0]), vec![kv("command", "^FN"), kv("field_number", "1")]);
}

#[test]
fn font_references_accept_builtin_and_loaded_fonts() {
    let a = entry(&["^A"]);
    let nodes: Vec<Node> = Vec::new();
    let mut state = LabelState::new();
    let mut issues = Vec::new();
    with_vctx(&nodes, None, |vctx| {
        let use_q = vec![val("q")];
        let c = CommandCtx { code: "^A", args: &use_q, cmd: &a, span: None, node_idx: 0 };
        validate_font_reference(&c, vctx, FontReferenceAction::Validate, 0, &mut state, &mut issues);
        validate_font_reference(&c, vctx, FontReferenceAction::Register, 0, &mut state, &mut issues);
        validate_font_reference(&c, vctx, FontReferenceAction::Register, 0, &mut state, &mut issues);
        validate_font_reference(&c, vctx, FontReferenceAction::Validate, 0, &mut state, &mut issues);
        let use_b = vec![val("B5")];
        let c2 = CommandCtx { code: "^A", args: &use_b, cmd: &a, span: None, node_idx: 1 };
        validate_font_reference(&c2, vctx, FontReferenceAction::Validate, 0, &mut state, &mut issues);
    });
    assert_eq!(state.loaded_fonts, vec!['q']);
    assert_eq!(issues.len(), 1);
    assert_eq!(issues[0].id, "ZPL2303");
    assert_eq!(
        issues[0].message,
        "^A font 'q' is not a built-in font (A-Z, 0-9) and has not been loaded via ^CW"
    );
    assert_eq!(ctx_of(&issues[0]), vec![kv("command", "^A"), kv("font", "q")]);
}

#[test]
fn media_modes_are_checked_against_the_profile() {
    let mm = entry(&["^MM"]);
    let mut p = profile();
    p.media = Some(Media {
        print_method: Some(PrintMethod::DirectThermal),
        supported_modes: Some(vec!["T".to_string(), "P".to_string()]),
        supported_tracking: Some(Vec::new()),
    });
    let nodes: Vec<Node> = Vec::new();
    let mut issues = Vec::new();
    with_vctx(&nodes, Some(&p), |vctx| {
        let cut = vec![val("C")];
        let c = CommandCtx { code: "^MM", args: &cut, cmd: &mm, span: None, node_idx: 0 };
        validate_media_modes(&c, vctx, MediaModesTarget::SupportedModes, 0, &mut issues);
        validate_media_modes(&c, vctx, MediaModesTarget::SupportedTracking, 0, &mut issues);
        let tear = vec![val("T")];
        let c2 = CommandCtx { code: "^MM", args: &tear, cmd: &mm, span: None, node_idx: 0 };
        validate_media_modes(&c2, vctx, MediaModesTarget::SupportedModes, 0, &mut issues);
        let c3 = CommandCtx { code: "^MT", args: &tear, cmd: &mm, span: None, node_idx: 0 };
        validate_media_modes(&c3, vctx, MediaModesTarget::PrintMethod, 0, &mut issues);
    });
    assert_eq!(issues.len(), 2);
    assert_eq!(issues[0].id, "ZPL1403");
    assert_eq!(issues[0].message, "^MM mode 'C' is not in profile's supported_modes [\"T\", \"P\"]");
    assert_eq!(
        ctx_of(&issues[0]),
        vec![
            kv("command", "^MM"),
            kv("kind", "mode"),
            kv("profile", "zt410"),
            kv("supported", "[\"T\", \"P\"]"),
            kv("value", "C"),
        ]
    );
    assert_eq!(issues[1].message, "^MT media type 'T' conflicts with profile print method 'DirectThermal'");
    assert_eq!(ctx_of(&issues[1])[3], kv("profile_method", "DirectThermal"));
}

#[test]
fn graphic_data_length_counts_hex_pairs_and_continuations() {
    let gf = entry(&["^GF"]);
    let args = vec![val("A"), val("3"), val("3"), val("1"), val("FF FF")];
    let nodes = vec![
        Node::Command { code: "^GF".to_string(), args: args.clone(), span: Span { start: 0, end: 20 } },
        Node::RawData { command: "^GF".to_string(), data: Some("\nFF".to_string()), span: Span { start: 20, end: 23 } },
        Node::RawData { command: "^GF".to_string(), data: Some("00".to_string()), span: Span { start: 23, end: 25 } },
        Node::RawData { command: "~DG".to_string(), data: Some("00".to_string()), span: Span { start: 25, end: 27 } },
    ];
    let mut issues = Vec::new();
    with_vctx(&nodes, None, |vctx| {
        let c = CommandCtx { code: "^GF", args: &args, cmd: &gf, span: Some(Span { start: 0, end: 20 }), node_idx: 0 };
        validate_gf_data_length(&c, vctx, 0, 1, 4, &mut issues);
    });
    assert_eq!(issues.len(), 1);
    assert_eq!(issues[0].id, "ZPL2307");
    assert_eq!(
        issues[0].message,
        "^GF data length mismatch: declared 3 bytes (ASCII hex (2 chars per byte)), but data is 8 chars (expected 6)"
    );
    assert_eq!(
        ctx_of(&issues[0]),
        vec![
            kv("actual", "8"),
            kv("command", "^GF"),
            kv("declared", "3"),
            kv("expected", "6"),
            kv("format", "A"),
        ]
    );
}

#[test]
fn graphic_data_length_binary_counts_every_byte() {
    let gf = entry(&["^GF"]);
    let args = vec![val("B"), val("4"), val("4"), val("1"), val("a b")];
    let nodes = vec![Node::Command { code: "^GF".to_string(), args: args.clone(), span: Span { start: 0, end: 9 } }];
    let mut issues = Vec::new();
    with_vctx(&nodes, None, |vctx| {
        let c = CommandCtx { code: "^GF", args: &args, cmd: &gf, span: None, node_idx: 0 };
        validate_gf_data_length(&c, vctx, 0, 1, 4, &mut issues);
        let other = vec![val("C"), val("4"), val("4"), val("1"), val("a")];
        let c2 = CommandCtx { code: "^GF", args: &other, cmd: &gf, span: None, node_idx: 0 };
        validate_gf_data_length(&c2, vctx, 0, 1, 4, &mut issues);
    });
    assert_eq!(issues.len(), 1);
    assert_eq!(
        issues[0].message,
        "^GF data length mismatch: declared 4 bytes (binary (1:1)), but data is 3 chars (expected 4)"
    );
}

#[test]
fn structural_rules_run_in_order_and_track_label_state() {
    let mut gf = entry(&["^GF"]);
    gf.structural_rules = Some(vec![
        StructuralRule::GfPreflightTracking { graphic_field_count_arg_index: 2, bytes_per_row_arg_index: 3 },
        StructuralRule::PositionBounds { action: PositionBoundsAction::TrackWidth },
        StructuralRule::DuplicateFieldNumber { arg_index: 0 },
    ]);
    let args = vec![val("A"), val("10"), val("4294967290"), val("1")];
    let nodes = vec![Node::Command { code: "^GF".to_string(), args: args.clone(), span: Span { start: 0, end: 9 } }];
    let mut state = LabelState::new();
    let mut issues = Vec::new();
    with_vctx(&nodes, None, |vctx| {
        let c = CommandCtx { code: "^GF", args: &args, cmd: &gf, span: None, node_idx: 0 };
        validate_structural_semantics(&c, vctx, &mut state, &mut issues);
        validate_structural_semantics(&c, vctx, &mut state, &mut issues);
        run_semantic_rule(
            &StructuralRule::PositionBounds { action: PositionBoundsAction::TrackHeight },
            &c,
            vctx,
            &mut state,
            &mut issues,
        );
    });
    assert_eq!(state.gf_total_bytes, u32::MAX);
    assert!(state.has_explicit_pw);
    assert!(state.has_explicit_ll);
    assert_eq!(issues.len(), 1);
    assert_eq!(issues[0].message, "Duplicate field number A (first used at node 0)");
}

#[test]
fn label_codes_spans_and_end_of_label_findings() {
    let label = Label {
        nodes: vec![
            cmd_node("^XA", vec![], 0),
            cmd_node("^FO", vec![], 3),
            cmd_node("^FO", vec![], 6),
            cmd_node("^XZ", vec![], 9),
        ],
    };
    assert_eq!(collect_label_codes(&label), vec!["^XA".to_string(), "^FO".to_string(), "^XZ".to_string()]);
    assert_eq!(first_command_span(&label), Some(Span { start: 0, end: 3 }));
    assert_eq!(last_command_span(&label), Some(Span { start: 9, end: 12 }));
    let trivia = Label { nodes: vec![Node::Trivia { text: "x".to_string(), span: Span { start: 0, end: 1 } }] };
    assert_eq!(first_command_span(&trivia), None);

    let fo = entry(&["^FO"]);
    let mut open = flags();
    open.opens_field = true;
    let reg = empty_registry();
    let device = DeviceState::default();
    let codes: Vec<String> = Vec::new();
    let vctx = ValidationContext { profile: None, label_nodes: &label.nodes, label_codes: &codes, device_state: &device, severities: &reg };
    let mut tracker = FieldTracker::new();
    let mut issues = Vec::new();
    let args: Vec<ArgSlot> = Vec::new();
    let c = CommandCtx { code: "^FO", args: &args, cmd: &fo, span: None, node_idx: 1 };
    tracker.process_command(&c, &vctx, open, &mut issues);
    emit_unclosed_field_diagnostic(&label, &tracker, &reg, &mut issues);
    emit_empty_label_diagnostic(&label, false, &reg, &mut issues);
    emit_empty_label_diagnostic(&label, true, &reg, &mut issues);
    assert_eq!(issues.len(), 2);
    assert_eq!(issues[0].id, "ZPL2203");
    assert_eq!(issues[0].message, "field opened but never closed with ^FS before end of label");
    assert_eq!(issues[0].span, Some(Span { start: 9, end: 12 }));
    assert_eq!(ctx_of(&issues[0]), vec![kv("command", "^FO")]);
    assert_eq!(issues[1].id, "ZPL2202");
    assert_eq!(issues[1].message, "Empty label (no commands between ^XA and ^XZ)");
    assert_eq!(issues[1].span, Some(Span { start: 0, end: 3 }));
    assert!(issues[1].context.is_none());
}

#[test]
fn field_membership_follows_field_origins_and_separators() {
    let mut fo = entry(&["^FO"]);
    fo.opens_field = true;
    let mut fs = entry(&["^FS"]);
    fs.closes_field = true;
    let fd = entry(&["^FD"]);
    let tables = ParserTables { commands: vec![fo, fs, fd], opcode_trie: None, structural_rule_index: None };
    let plan_ctx = ValidationPlanContext::from_views(None, None, None);
    let label = Label {
        nodes: vec![
            cmd_node("^XA", vec![], 0),
            cmd_node("^FO", vec![], 3),
            cmd_node("^FD", vec![], 6),
            cmd_node("^ZZ", vec![], 9),
            cmd_node("^FS", vec![], 12),
            cmd_node("^FD", vec![], 15),
            cmd_node("^FO", vec![], 18),
        ],
    };
    let m = build_field_membership(&label, &tables, &plan_ctx);
    assert_eq!(m.field_id_by_node, vec![None, Some(0), Some(0), Some(0), Some(0), None, Some(1)]);
    assert_eq!(m.field_codes.len(), 2);
    assert_eq!(m.field_codes[0], vec!["^FO", "^FD", "^ZZ", "^FS"]);
    assert_eq!(m.field_codes[1], vec!["^FO"]);
}

#[test]
fn redundant_state_and_arity_are_reported() {
    let mut by = entry(&["^BY"]);
    by.has_effects = true;
    by.arity = 1;
    let plan_ctx = ValidationPlanContext::from_views(None, Some(EffectIndexView { producer_codes: Vec::new() }), None);
    let plan = LabelExecutionPlan {
        run_semantic_batch: false,
        run_effect_batch: false,
        run_field_batch: false,
        run_preflight_gf_memory: false,
        run_preflight_missing_dimensions: false,
    };
    let reg = empty_registry();
    let mut state = LabelState::new();
    let mut issues = Vec::new();
    let args = vec![val("2"), val("3")];
    let c0 = CommandCtx { code: "^BY", args: &args[..1], cmd: &by, span: None, node_idx: 0 };
    apply_effects_and_arity(&c0, flags(), "^BY", &plan_ctx, &plan, &reg, &mut state, &mut issues);
    let c1 = CommandCtx { code: "^BY", args: &args, cmd: &by, span: None, node_idx: 3 };
    apply_effects_and_arity(&c1, flags(), "^BY", &plan_ctx, &plan, &reg, &mut state, &mut issues);
    assert_eq!(issues.len(), 2);
    assert_eq!(issues[0].id, "ZPL2305");
    assert_eq!(
        issues[0].message,
        "^BY overrides a previous ^BY without any command consuming the earlier value"
    );
    assert_eq!(ctx_of(&issues[0]), vec![kv("command", "^BY"), kv("producer", "^BY")]);
    assert_eq!(issues[1].id, "ZPL1201");
    assert_eq!(issues[1].message, "^BY has too many arguments (2>1)");
    assert_eq!(ctx_of(&issues[1]), vec![kv("actual", "2"), kv("arity", "1"), kv("command", "^BY")]);
    assert_eq!(state.last_producer_idx, vec![("^BY".to_string(), 3)]);
}

#[test]
fn printer_gates_and_placement_are_enforced() {
    let mut rf = entry(&["^RF"]);
    rf.printer_gates = Some(vec!["rfid".to_string(), "cutter".to_string(), "wifi".to_string()]);
    let mut p = profile();
    p.features = Some(vec![("rfid".to_string(), false), ("cutter".to_string(), true)]);
    let reg = empty_registry();
    let mut issues = Vec::new();
    enforce_printer_gates("^RF", &rf, Some(&p), None, &reg, &mut issues);
    enforce_printer_gates("^RF", &rf, None, None, &reg, &mut issues);
    assert_eq!(issues.len(), 1);
    assert_eq!(issues[0].id, "ZPL1402");
    assert_eq!(issues[0].message, "^RF requires 'rfid' capability not available in profile 'zt410'");
    assert_eq!(
        ctx_of(&issues[0]),
        vec![kv("command", "^RF"), kv("gate", "rfid"), kv("level", "command"), kv("profile", "zt410")]
    );

    let mut host = entry(&["~HS"]);
    host.plane = Some(Plane::Host);
    let mut cfg = entry(&["^JU"]);
    cfg.plane = Some(Plane::Config);
    cfg.placement = Some(Placement { allowed_inside_label: Some(true), allowed_outside_label: Some(false) });
    let mut placed = Vec::new();
    enforce_placement("~HS", &host, true, None, &reg, &mut placed);
    enforce_placement("~HS", &host, false, None, &reg, &mut placed);
    enforce_placement("^JU", &cfg, true, None, &reg, &mut placed);
    enforce_placement("^JU", &cfg, false, None, &reg, &mut placed);
    assert_eq!(placed.len(), 2);
    assert_eq!(placed[0].id, "ZPL2205");
    assert_eq!(placed[0].message, "~HS should not appear inside a label (^XA/^XZ)");
    assert_eq!(ctx_of(&placed[0]), vec![kv("command", "~HS"), kv("plane", "host")]);
    assert_eq!(placed[1].message, "^JU should not appear outside a label (^XA/^XZ)");
    assert_eq!(ctx_of(&placed[1]), vec![kv("command", "^JU"), kv("plane", "config")]);
}

#[test]
fn session_commands_update_device_state() {
    let mut mu = entry(&["^MU"]);
    mu.scope = Some(CommandScope::Session);
    let label_scoped = entry(&["^CF"]);
    let mut device = DeviceState::default();
    let args = vec![val("m"), val("203"), val("300")];
    update_session_state("^CF", &args, &label_scoped, "^CF", &mut device);
    assert!(device.session_producers.is_empty());
    update_session_state("^MU", &args, &mu, "^MU", &mut device);
    update_session_state("^MU", &args, &mu, "^MU", &mut device);
    assert_eq!(device.units, Units::Millimeters);
    assert_eq!(device.dpi, Some(300));
    assert_eq!(device.session_producers, vec!["^MU".to_string()]);
}

#[test]
fn preflight_reports_graphic_memory_and_missing_dimensions() {
    let mut p = profile();
    p.memory = Some(Memory { ram_kb: Some(1), flash_kb: None, firmware_version: None });
    p.page = Some(Page { width_dots: Some(812), height_dots: Some(1218) });
    let mut state = LabelState::new();
    state.gf_total_bytes = 2048;
    state.has_explicit_ll = true;
    let nodes: Vec<Node> = Vec::new();
    let mut issues = Vec::new();
    let span = Some(Span { start: 0, end: 3 });
    with_vctx(&nodes, Some(&p), |vctx| {
        validate_preflight(vctx, &state, true, true, span, &mut issues);
        validate_preflight(vctx, &state, false, false, span, &mut issues);
    });
    assert_eq!(issues.len(), 2);
    assert_eq!(issues[0].id, "ZPL2309");
    assert_eq!(issues[0].message, "Total graphic data (2048 bytes) exceeds available RAM (1024 bytes / 1 KB)");
    assert_eq!(
        ctx_of(&issues[0]),
        vec![kv("command", "^GF"), kv("ram_bytes", "1024"), kv("total_bytes", "2048")]
    );
    assert_eq!(issues[1].id, "ZPL2310");
    assert_eq!(
        issues[1].message,
        "Label relies on profile for dimensions but does not contain explicit ^PW \u{2014} consider adding for portability"
    );
    assert_eq!(ctx_of(&issues[1]), vec![kv("missing_commands", "^PW")]);
}

#[test]
fn label_preflight_runs_only_when_planned() {
    let mut p = profile();
    p.page = Some(Page { width_dots: None, height_dots: Some(600) });
    let label = Label { nodes: vec![cmd_node("^XA", vec![], 4), cmd_node("^XZ", vec![], 7)] };
    let state = LabelState::new();
    let device = DeviceState::default();
    let codes: Vec<String> = Vec::new();
    let reg = empty_registry();
    let mut plan = LabelExecutionPlan {
        run_semantic_batch: false,
        run_effect_batch: false,
        run_field_batch: false,
        run_preflight_gf_memory: false,
        run_preflight_missing_dimensions: false,
    };
    let mut issues = Vec::new();
    run_label_preflight(&label, Some(&p), &device, &codes, &plan, &state, &reg, &mut issues);
    assert!(issues.is_empty());
    plan.run_preflight_missing_dimensions = true;
    run_label_preflight(&label, Some(&p), &device, &codes, &plan, &state, &reg, &mut issues);
    assert_eq!(issues.len(), 1);
    assert_eq!(ctx_of(&issues[0]), vec![kv("missing_commands", "^LL")]);
    assert_eq!(issues[0].span, Some(Span { start: 4, end: 7 }));
}
