use zpl_toolchain_core::ast::{ArgSlot, Ast, Label, Node, Presence};
use zpl_toolchain_core::command_args::{arg_slot_for, consume_default_from_refs, resolve_default, validate_command_args};
use zpl_toolchain_core::context::{CommandCtx, ValidationContext};
use zpl_toolchain_core::diag::{Diagnostic, Severity, SeverityRegistry, Span};
use zpl_toolchain_core::label_state::LabelState;
use zpl_toolchain_core::parser::parse_with_tables;
use zpl_toolchain_core::profile::Profile;
use zpl_toolchain_core::state::{DeviceState, StateValue};
use zpl_toolchain_core::tables::{Arg, ArgDefault, ArgUnion, CommandEntry, ParserTables, StructuralRule};
use zpl_toolchain_core::validator::{validate, validate_with_profile};

fn entry(codes: &[&str]) -> CommandEntry {
    CommandEntry {
        codes: codes.iter().map(|c| c.to_string()).collect(),
        arity: 4,
        field_data: false,
        raw_payload: false,
        opens_field: false,
        closes_field: false,
        hex_escape_modifier: false,
        field_number: false,
        serialization: false,
        requires_field: false,
        signature: None,
        signature_overrides: None,
        scope: None,
        constraints: None,
        constraint_default_severity: None,
        has_effects: false,
        structural_rules: None,
        field_data_rules: None,
        printer_gates: None,
        plane: None,
        placement: None,
        args: None,
    }
}

fn arg(t: &str, optional: bool) -> Arg {
    Arg {
        arg_type: t.to_string(),
        enum_values: None,
        min_length: None,
        max_length: None,
        optional,
        default: None,
        default_by_dpi: None,
        default_from: None,
        default_from_state_key: None,
    }
}

fn val(v: &str) -> ArgSlot {
    ArgSlot { key: None, presence: Presence::Value, value: Some(v.to_string()) }
}

fn keyed(k: &str, v: &str) -> ArgSlot {
    ArgSlot { key: Some(k.to_string()), presence: Presence::Value, value: Some(v.to_string()) }
}

fn empty_slot() -> ArgSlot {
    ArgSlot { key: None, presence: Presence::Empty, value: None }
}

fn registry() -> SeverityRegistry {
    SeverityRegistry {
        entries: vec![
            ("ZPL1001".to_string(), Severity::Error),
            ("ZPL1002".to_string(), Severity::Error),
            ("ZPL1102".to_string(), Severity::Error),
            ("ZPL2202".to_string(), Severity::Warn),
            ("ZPL2203".to_string(), Severity::Error),
        ],
    }
}

fn ids(ds: &[Diagnostic]) -> Vec<String> {
    ds.iter().map(|d| d.id.clone()).collect()
}

fn run_args(cmd: &CommandEntry, args: &[ArgSlot], profile: Option<&Profile>) -> Vec<Diagnostic> {
    let reg = registry();
    let nodes: Vec<Node> = Vec::new();
    let codes: Vec<String> = Vec::new();
    let device = DeviceState::default();
    let vctx = ValidationContext { profile, label_nodes: &nodes, label_codes: &codes, device_state: &device, severities: &reg };
    let ctx = CommandCtx { code: "^BY", args, cmd, span: Some(Span { start: 0, end: 3 }), node_idx: 0 };
    let state = LabelState::new();
    let mut issues = Vec::new();
    validate_command_args(&ctx, &vctx, &state, &mut issues);
    issues
}

#[test]
fn slot_lookup_prefers_the_last_keyed_slot() {
    let args = vec![val("a"), val("b"), keyed("0", "c")];
    assert_eq!(arg_slot_for(&args, 0).and_then(|s| s.value.clone()), Some("c".to_string()));
    assert_eq!(arg_slot_for(&args, 1).and_then(|s| s.value.clone()), Some("b".to_string()));
    assert!(arg_slot_for(&args, 5).is_none());
}

#[test]
fn required_argument_missing_unset_and_empty() {
    let mut cmd = entry(&["^BY"]);
    cmd.args = Some(vec![ArgUnion::Single(arg("int", false)), ArgUnion::Single(arg("int", false))]);
    let missing = run_args(&cmd, &[val("2")], None);
    assert_eq!(ids(&missing), vec!["ZPL1001".to_string()]);
    assert_eq!(missing[0].message, "^BY.1 is required but missing");
    assert_eq!(missing[0].severity, Severity::Error);
    assert_eq!(
        missing[0].context,
        Some(vec![("arg".to_string(), "1".to_string()), ("command".to_string(), "^BY".to_string())])
    );
    let unset = run_args(&cmd, &[val("2"), ArgSlot { key: None, presence: Presence::Unset, value: None }], None);
    assert_eq!(unset[0].message, "^BY.1 is required but unset");
    let empty = run_args(&cmd, &[val("2"), empty_slot()], None);
    assert_eq!(ids(&empty), vec!["ZPL1002".to_string()]);
    assert_eq!(empty[0].message, "^BY.1 is empty but required");
}

#[test]
fn optional_or_defaulted_arguments_may_be_left_out() {
    let mut cmd = entry(&["^BY"]);
    let mut with_default = arg("int", false);
    with_default.default = Some(ArgDefault::Text("3".to_string()));
    cmd.args = Some(vec![ArgUnion::Single(arg("int", true)), ArgUnion::Single(with_default)]);
    assert!(run_args(&cmd, &[], None).is_empty());
}

#[test]
fn a_bad_default_is_checked_like_a_value() {
    let mut cmd = entry(&["^BY"]);
    let mut a = arg("int", false);
    a.default = Some(ArgDefault::Text("x".to_string()));
    cmd.args = Some(vec![ArgUnion::Single(a)]);
    let issues = run_args(&cmd, &[], None);
    assert_eq!(ids(&issues), vec!["ZPL1102".to_string()]);
}

#[test]
fn defaults_for_the_profile_resolution_come_first() {
    let mut a = arg("int", false);
    a.default = Some(ArgDefault::Text("2".to_string()));
    a.default_by_dpi = Some(vec![
        ("300".to_string(), ArgDefault::Text("5".to_string())),
        ("203".to_string(), ArgDefault::Text("4".to_string())),
    ]);
    let p = Profile { id: "p".to_string(), dpi: 203, page: None, features: None, memory: None, media: None };
    let state = LabelState::new();
    assert_eq!(resolve_default(&a, Some(&p), &state), StateValue::Value("4".to_string()));
    assert_eq!(resolve_default(&a, None, &state), StateValue::Value("2".to_string()));
    a.default_by_dpi = Some(vec![("203".to_string(), ArgDefault::Other)]);
    assert_eq!(resolve_default(&a, Some(&p), &state), StateValue::Value("2".to_string()));
    a.default = Some(ArgDefault::Other);
    assert_eq!(resolve_default(&a, Some(&p), &state), StateValue::Unset);
}

#[test]
fn a_seen_producer_supplies_the_default_first() {
    let mut a = arg("int", false);
    a.default = Some(ArgDefault::Text("2".to_string()));
    a.default_from = Some("^BY".to_string());
    a.default_from_state_key = Some("barcode.moduleWidth".to_string());
    let mut state = LabelState::new();
    assert_eq!(resolve_default(&a, None, &state), StateValue::Value("2".to_string()));
    state.record_producer("^BY", 0);
    state.values.apply_producer("^BY", &[val("3"), val("2.5"), val("80")]);
    assert_eq!(resolve_default(&a, None, &state), StateValue::Value("3".to_string()));
    a.default_from_state_key = Some("barcode.ratio".to_string());
    assert_eq!(resolve_default(&a, None, &state), StateValue::NotComputed);
    a.default_from_state_key = Some("no.such.key".to_string());
    assert_eq!(resolve_default(&a, None, &state), StateValue::Value("2".to_string()));
}

#[test]
fn default_sources_are_marked_consumed() {
    let mut a = arg("int", true);
    a.default_from = Some("^BY".to_string());
    let mut cmd = entry(&["^BC"]);
    cmd.args = Some(vec![ArgUnion::Single(a)]);
    let mut state = LabelState::new();
    state.record_producer("^BY", 0);
    let args: Vec<ArgSlot> = Vec::new();
    let ctx = CommandCtx { code: "^BC", args: &args, cmd: &cmd, span: None, node_idx: 1 };
    consume_default_from_refs(&ctx, &mut state);
    assert_eq!(state.producer_consumed, vec![("^BY".to_string(), true)]);
}

fn tables() -> ParserTables {
    let mut fo = entry(&["^FO"]);
    fo.opens_field = true;
    let mut fs = entry(&["^FS"]);
    fs.closes_field = true;
    let mut fd = entry(&["^FD"]);
    fd.field_data = true;
    ParserTables {
        commands: vec![entry(&["^XA"]), entry(&["^XZ"]), fo, fs, fd],
        opcode_trie: None,
        structural_rule_index: None,
    }
}

fn cmd_node(code: &str, args: Vec<ArgSlot>, at: usize) -> Node {
    Node::Command { code: code.to_string(), args, span: Span { start: at, end: at + 3 } }
}

#[test]
fn empty_label_is_reported() {
    let ast = Ast { labels: vec![Label { nodes: vec![cmd_node("^XA", vec![], 0), cmd_node("^XZ", vec![], 3)] }] };
    let r = validate(&ast, &tables(), &registry());
    assert_eq!(ids(&r.issues), vec!["ZPL2202".to_string()]);
    assert!(r.ok);
}

#[test]
fn field_left_open_is_reported_and_fails_validation() {
    let ast = Ast {
        labels: vec![Label {
            nodes: vec![
                cmd_node("^XA", vec![], 0),
                cmd_node("^FO", vec![val("10"), val("10")], 3),
                cmd_node("^XZ", vec![], 12),
            ],
        }],
    };
    let r = validate(&ast, &tables(), &registry());
    assert_eq!(ids(&r.issues), vec!["ZPL2203".to_string()]);
    assert_eq!(r.issues[0].span, Some(Span { start: 12, end: 15 }));
    assert!(!r.ok);
}

#[test]
fn closed_field_validates_clean() {
    let ast = Ast {
        labels: vec![Label {
            nodes: vec![
                cmd_node("^XA", vec![], 0),
                cmd_node("^FO", vec![val("10"), val("10")], 3),
                cmd_node("^FD", vec![val("Hi")], 12),
                cmd_node("^FS", vec![], 17),
                cmd_node("^XZ", vec![], 20),
            ],
        }],
    };
    let r = validate(&ast, &tables(), &registry());
    assert!(r.issues.is_empty());
    assert!(r.ok);
}

#[test]
fn labels_are_reported_in_order() {
    let empty = Label { nodes: vec![cmd_node("^XA", vec![], 0), cmd_node("^XZ", vec![], 3)] };
    let open = Label { nodes: vec![cmd_node("^XA", vec![], 6), cmd_node("^FO", vec![], 9), cmd_node("^XZ", vec![], 12)] };
    let ast = Ast { labels: vec![empty, open] };
    let r = validate_with_profile(&ast, &tables(), None, &registry());
    assert_eq!(ids(&r.issues), vec!["ZPL2202".to_string(), "ZPL2203".to_string()]);
}

#[test]
fn too_many_arguments_are_reported() {
    let mut t = tables();
    t.commands[2].arity = 2;
    let ast = Ast {
        labels: vec![Label {
            nodes: vec![
                cmd_node("^XA", vec![], 0),
                cmd_node("^FO", vec![val("1"), val("2"), val("3")], 3),
                cmd_node("^FS", vec![], 10),
                cmd_node("^XZ", vec![], 13),
            ],
        }],
    };
    let r = validate(&ast, &t, &registry());
    assert_eq!(ids(&r.issues), vec!["ZPL1201".to_string()]);
    assert_eq!(r.issues[0].message, "^FO has too many arguments (3>2)");
}

#[test]
fn graphic_rule_with_out_of_range_argument_is_skipped() {
    let mut t = tables();
    let mut gf = entry(&["^GF"]);
    gf.structural_rules = Some(vec![StructuralRule::GfDataLength {
        compression_arg_index: 9,
        declared_byte_count_arg_index: 1,
        data_arg_index: 0,
    }]);
    t.commands.push(gf);
    let ast = Ast {
        labels: vec![Label {
            nodes: vec![cmd_node("^XA", vec![], 0), cmd_node("^GF", vec![val("AB"), val("1")], 3), cmd_node("^XZ", vec![], 9)],
        }],
    };
    let r = validate(&ast, &t, &registry());
    assert!(r.issues.iter().all(|d| d.id != "ZPL2307"));
}

#[test]
fn parsed_label_validates_end_to_end() {
    let t = tables();
    let parsed = parse_with_tables("^XA^FO10,10^FDHello^FS^XZ", Some(&t));
    let r = validate(&parsed.ast, &t, &registry());
    assert!(r.ok, "unexpected findings: {:?}", r.issues);
}
