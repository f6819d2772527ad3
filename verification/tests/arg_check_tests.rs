use zpl_toolchain_core::arg_checks::{
    parses_as_i64, parses_as_number, select_effective_arg, validate_arg_enum_gates, validate_arg_length,
    validate_arg_value,
};
use zpl_toolchain_core::ast::{ArgSlot, Node, Presence};
use zpl_toolchain_core::context::{CommandCtx, ValidationContext};
use zpl_toolchain_core::diag::{Diagnostic, Severity, SeverityRegistry, Span};
use zpl_toolchain_core::profile::Profile;
use zpl_toolchain_core::state::DeviceState;
use zpl_toolchain_core::tables::{Arg, ArgUnion, CommandEntry, EnumValue};

fn arg(t: &str) -> Arg {
    Arg { arg_type: t.to_string(), enum_values: None, min_length: None, max_length: None, optional: false, default: None, default_by_dpi: None, default_from: None, default_from_state_key: None }
}

fn entry() -> CommandEntry {
    CommandEntry {
        codes: vec!["^BC".to_string()],
        arity: 4,
        field_data: false,
        raw_payload: false,
        opens_field: false,
        closes_field: false,
        hex_escape_modifier: false,
        field_number: false,
        serialization: false,
        requires_field: false,
        signature: None,
        signature_overrides: None,
        scope: None,
        constraints: None,
        constraint_default_severity: None,
        has_effects: false,
        structural_rules: None,
        field_data_rules: None,
        printer_gates: None,
        plane: None,
        placement: None,
        args: None,
    }
}

fn ctx_of(d: &Diagnostic) -> Vec<(String, String)> {
    d.context.clone().unwrap_or_default()
}

fn kv(k: &str, v: &str) -> (String, String) {
    (k.to_string(), v.to_string())
}

#[test]
fn number_syntax_follows_the_float_grammar() {
    for ok in ["3.14", "-3.14", "+2", "2.5E10", "2.5e-10", "5.", ".5", "1e+3", "inf", "-inf", "NaN", "+Infinity", "007"] {
        assert!(parses_as_number(ok), "{ok}");
    }
    for bad in ["", ".", "e5", "1e", "1.2.3", " 1", "1 ", "0x10", "1_000", "+", "-.", "1e2.5", "infinit", "1ee2"] {
        assert!(!parses_as_number(bad), "{bad}");
    }
}

#[test]
fn effective_arg_prefers_enum_then_numeric_then_first() {
    let mut e = arg("enum");
    e.enum_values = Some(vec![EnumValue::Simple("N".to_string()), EnumValue::Simple("Y".to_string())]);
    let u = ArgUnion::OneOf { one_of: vec![arg("string"), arg("int"), e] };
    let slot = |v: Option<&str>| ArgSlot { key: None, presence: Presence::Value, value: v.map(|s| s.to_string()) };
    assert_eq!(select_effective_arg(&u, Some(&slot(Some("Y")))).map(|a| a.arg_type.clone()), Some("enum".to_string()));
    assert_eq!(select_effective_arg(&u, Some(&slot(Some("12")))).map(|a| a.arg_type.clone()), Some("int".to_string()));
    assert_eq!(select_effective_arg(&u, Some(&slot(Some("x")))).map(|a| a.arg_type.clone()), Some("string".to_string()));
    assert_eq!(select_effective_arg(&u, Some(&slot(None))).map(|a| a.arg_type.clone()), Some("string".to_string()));
    assert_eq!(select_effective_arg(&u, None).map(|a| a.arg_type.clone()), Some("string".to_string()));
    let single = ArgUnion::Single(arg("char"));
    assert_eq!(select_effective_arg(&single, None).map(|a| a.arg_type.clone()), Some("char".to_string()));
    let empty = ArgUnion::OneOf { one_of: Vec::new() };
    assert!(select_effective_arg(&empty, None).is_none());
}

#[test]
fn argument_length_limits_count_bytes() {
    let cmd = entry();
    let args: Vec<ArgSlot> = Vec::new();
    let cctx = CommandCtx { code: "^BC", args: &args, cmd: &cmd, span: Some(Span { start: 0, end: 3 }), node_idx: 0 };
    let reg = SeverityRegistry { entries: vec![("ZPL1106".to_string(), Severity::Error)] };
    let mut a = arg("string");
    a.min_length = Some(3);
    a.max_length = Some(3);
    let mut issues = Vec::new();
    validate_arg_length(&cctx, &reg, "0", "ab", &a, &mut issues);
    validate_arg_length(&cctx, &reg, "0", "é", &a, &mut issues);
    validate_arg_length(&cctx, &reg, "1", "éé", &a, &mut issues);
    validate_arg_length(&cctx, &reg, "2", "abc", &a, &mut issues);
    assert_eq!(issues.len(), 3);
    assert_eq!(issues[0].id, "ZPL1105");
    assert_eq!(issues[0].severity, Severity::Warn);
    assert_eq!(issues[0].message, "^BC.0 shorter than minLength 3");
    assert_eq!(
        ctx_of(&issues[0]),
        vec![kv("actual_length", "2"), kv("arg", "0"), kv("command", "^BC"), kv("min_length", "3"), kv("value", "ab")]
    );
    assert_eq!(issues[1].message, "^BC.0 shorter than minLength 3");
    assert_eq!(issues[2].id, "ZPL1106");
    assert_eq!(issues[2].severity, Severity::Error);
    assert_eq!(issues[2].message, "^BC.1 exceeds maxLength 3");
    assert_eq!(ctx_of(&issues[2])[0], kv("actual_length", "4"));
    assert_eq!(ctx_of(&issues[2])[3], kv("max_length", "3"));
}

#[test]
fn enumerated_values_need_their_printer_capabilities() {
    let cmd = entry();
    let args: Vec<ArgSlot> = Vec::new();
    let cctx = CommandCtx { code: "^MM", args: &args, cmd: &cmd, span: None, node_idx: 0 };
    let mut a = arg("enum");
    a.enum_values = Some(vec![
        EnumValue::Simple("T".to_string()),
        EnumValue::Object { value: "C".to_string(), printer_gates: Some(vec!["cutter".to_string(), "rfid".to_string()]) },
        EnumValue::Object { value: "C".to_string(), printer_gates: Some(vec!["peeler".to_string()]) },
    ]);
    let p = Profile {
        id: "zd421".to_string(),
        dpi: 203,
        page: None,
        features: Some(vec![("cutter".to_string(), false), ("peeler".to_string(), false), ("rfid".to_string(), true)]),
        memory: None,
        media: None,
    };
    let nodes: Vec<Node> = Vec::new();
    let codes: Vec<String> = Vec::new();
    let device = DeviceState::default();
    let reg = SeverityRegistry { entries: Vec::new() };
    let vctx = ValidationContext { profile: Some(&p), label_nodes: &nodes, label_codes: &codes, device_state: &device, severities: &reg };
    let mut issues = Vec::new();
    validate_arg_enum_gates(&cctx, &vctx, "0", "C", &a, &mut issues);
    validate_arg_enum_gates(&cctx, &vctx, "0", "T", &a, &mut issues);
    assert_eq!(issues.len(), 2);
    assert_eq!(issues[0].id, "ZPL1402");
    assert_eq!(issues[0].message, "^MM.0=C requires 'cutter' capability not available in profile 'zd421'");
    assert_eq!(
        ctx_of(&issues[0]),
        vec![
            kv("arg", "0"),
            kv("command", "^MM"),
            kv("gate", "cutter"),
            kv("level", "enum"),
            kv("profile", "zd421"),
            kv("value", "C"),
        ]
    );
    assert_eq!(issues[1].message, "^MM.0=C requires 'peeler' capability not available in profile 'zd421'");
}

#[test]
fn integer_syntax_follows_i64_parsing() {
    for ok in ["0", "-0", "+12", "-9223372036854775808", "9223372036854775807", "007"] {
        assert!(parses_as_i64(ok), "{ok}");
    }
    for bad in ["", "-", "+", "-+1", "+-1", "9223372036854775808", "-9223372036854775809", "1.0", " 1", "1e3"] {
        assert!(!parses_as_i64(bad), "{bad}");
    }
}

#[test]
fn argument_values_are_checked_against_their_type_first() {
    let cmd = entry();
    let args: Vec<ArgSlot> = Vec::new();
    let cctx = CommandCtx { code: "^BC", args: &args, cmd: &cmd, span: None, node_idx: 0 };
    let nodes: Vec<Node> = Vec::new();
    let codes: Vec<String> = Vec::new();
    let device = DeviceState::default();
    let reg = SeverityRegistry { entries: Vec::new() };
    let vctx = ValidationContext { profile: None, label_nodes: &nodes, label_codes: &codes, device_state: &device, severities: &reg };
    let mut issues = Vec::new();

    let mut int_arg = arg("int");
    int_arg.max_length = Some(2);
    validate_arg_value(&cctx, &vctx, "1", "12x", &int_arg, &mut issues);
    validate_arg_value(&cctx, &vctx, "1", "123", &int_arg, &mut issues);
    validate_arg_value(&cctx, &vctx, "2", "1.5e3", &arg("float"), &mut issues);
    validate_arg_value(&cctx, &vctx, "2", "abc", &arg("float"), &mut issues);
    validate_arg_value(&cctx, &vctx, "3", "ab", &arg("char"), &mut issues);
    validate_arg_value(&cctx, &vctx, "3", "é", &arg("char"), &mut issues);
    let mut e = arg("enum");
    e.enum_values = Some(vec![EnumValue::Simple("N".to_string())]);
    e.min_length = Some(2);
    validate_arg_value(&cctx, &vctx, "4", "Y", &e, &mut issues);

    let ids: Vec<&str> = issues.iter().map(|d| d.id.as_str()).collect();
    assert_eq!(ids, vec!["ZPL1102", "ZPL1106", "ZPL1103", "ZPL1104", "ZPL1101", "ZPL1105"]);
    assert_eq!(issues[0].message, "^BC.1 expected integer, got \"12x\"");
    assert_eq!(ctx_of(&issues[0]), vec![kv("arg", "1"), kv("command", "^BC"), kv("value", "12x")]);
    assert_eq!(issues[1].message, "^BC.1 exceeds maxLength 2");
    assert_eq!(issues[2].message, "^BC.2 expected number, got \"abc\"");
    assert_eq!(issues[3].message, "^BC.3 expected single character, got \"ab\"");
    assert_eq!(issues[4].message, "^BC.4 invalid enum");
    assert_eq!(issues[5].message, "^BC.4 shorter than minLength 2");
}
