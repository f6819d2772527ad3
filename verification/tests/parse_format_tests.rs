use zpl_toolchain_core::ast::{Ast, Label, Node, Presence};
use zpl_toolchain_core::diag::{Severity, Span};
use zpl_toolchain_core::emit::{emit_zpl, CommentPlacement, Compaction, EmitConfig, Indent};
use zpl_toolchain_core::format::{
    format_zpl, format_zpl_with_options, parse_comment_placement, parse_compaction, parse_indent,
};
use zpl_toolchain_core::lexer::{tokenize, tokenize_with_config, TokKind};
use zpl_toolchain_core::parser::{parse_str, parse_with_tables};
use zpl_toolchain_core::tables::{CommandEntry, ParserTables, Signature, SpacingPolicy};

fn entry(codes: &[&str]) -> CommandEntry {
    CommandEntry {
        codes: codes.iter().map(|c| c.to_string()).collect(),
        arity: 0,
        field_data: false,
        raw_payload: false,
        opens_field: false,
        closes_field: false,
        hex_escape_modifier: false,
        field_number: false,
        serialization: false,
        requires_field: false,
        signature: None,
        signature_overrides: None,
        scope: None,
        constraints: None,
        constraint_default_severity: None,
        has_effects: false,
        structural_rules: None,
        field_data_rules: None,
        printer_gates: None,
        plane: None,
        placement: None,
        args: None,
    }
}

fn sig(params: &[&str]) -> Signature {
    Signature {
        params: params.iter().map(|p| p.to_string()).collect(),
        joiner: ",".to_string(),
        no_space_after_opcode: true,
        allow_empty_trailing: true,
        split_rule: None,
        spacing_policy: SpacingPolicy::Forbid,
    }
}

fn small_tables() -> ParserTables {
    let xa = entry(&["^XA"]);
    let xz = entry(&["^XZ"]);
    let mut fo = entry(&["^FO"]);
    fo.opens_field = true;
    fo.signature = Some(sig(&["x", "y", "z"]));
    let mut fd = entry(&["^FD"]);
    fd.field_data = true;
    let mut fs = entry(&["^FS"]);
    fs.closes_field = true;
    let mut gf = entry(&["^GF"]);
    gf.raw_payload = true;
    ParserTables { commands: vec![xa, xz, fo, fd, fs, gf], opcode_trie: None, structural_rule_index: None }
}

#[test]
fn tokenize_splits_leaders_values_and_breaks() {
    let toks = tokenize("^XA,1 2\r\n ~");
    let kinds: Vec<TokKind> = toks.iter().map(|t| t.kind).collect();
    assert_eq!(
        kinds,
        vec![
            TokKind::Leader,
            TokKind::Value,
            TokKind::Comma,
            TokKind::Value,
            TokKind::Newline,
            TokKind::Whitespace,
            TokKind::Leader
        ]
    );
    assert_eq!(toks[1].text, "XA");
    assert_eq!(toks[3].text, "1 2");
    assert_eq!((toks[4].start, toks[4].end), (7, 9));
}

#[test]
fn tokenize_with_custom_prefixes() {
    let toks = tokenize_with_config("!XA;1", '!', '~', ';');
    let kinds: Vec<TokKind> = toks.iter().map(|t| t.kind).collect();
    assert_eq!(kinds, vec![TokKind::Leader, TokKind::Value, TokKind::Comma, TokKind::Value]);
}

#[test]
fn parse_simple_label_without_tables() {
    let r = parse_str("^XA^FO10,20^FDHi^FS^XZ");
    assert!(r.diagnostics.is_empty());
    assert_eq!(r.ast.labels.len(), 1);
    let nodes = &r.ast.labels[0].nodes;
    assert_eq!(nodes.len(), 5);
    match &nodes[1] {
        Node::Command { code, args, span } => {
            assert_eq!(code, "^FO");
            assert_eq!(args.len(), 2);
            assert_eq!(args[0].value.as_deref(), Some("10"));
            assert_eq!(args[1].presence, Presence::Value);
            assert_eq!(*span, Span { start: 3, end: 11 });
        }
        _ => panic!("expected a command"),
    }
}

#[test]
fn parse_empty_input_reports_no_labels() {
    let r = parse_str("");
    assert!(r.ast.labels.is_empty());
    assert_eq!(r.diagnostics.len(), 1);
    assert_eq!(r.diagnostics[0].id, "ZPL.PARSER.1006");
    assert_eq!(r.diagnostics[0].severity, Severity::Info);
    assert_eq!(r.diagnostics[0].span, Some(Span { start: 0, end: 0 }));
}

#[test]
fn parse_missing_terminator_and_stray_content() {
    let r = parse_str("hello^XA^FO1,2");
    assert_eq!(r.ast.labels.len(), 1);
    assert_eq!(r.ast.labels[0].nodes.len(), 2);
    let ids: Vec<&str> = r.diagnostics.iter().map(|d| d.id.as_str()).collect();
    assert_eq!(ids, vec!["ZPL.PARSER.1005", "ZPL.PARSER.1003"]);
    assert_eq!(r.diagnostics[0].span, Some(Span { start: 0, end: 5 }));
    assert_eq!(r.diagnostics[1].span, Some(Span { start: 14, end: 14 }));
}

#[test]
fn parse_with_tables_collects_field_data() {
    let t = small_tables();
    let r = parse_with_tables("^XA^FO1,2^FDHello, World^FS^XZ", Some(&t));
    assert!(r.diagnostics.is_empty(), "{:?}", r.diagnostics);
    let nodes = &r.ast.labels[0].nodes;
    match &nodes[1] {
        Node::Command { args, .. } => {
            assert_eq!(args.len(), 3);
            assert_eq!(args[0].key.as_deref(), Some("x"));
            assert_eq!(args[2].presence, Presence::Empty);
        }
        _ => panic!("expected ^FO"),
    }
    match &nodes[2] {
        Node::Command { code, args, .. } => {
            assert_eq!(code, "^FD");
            assert_eq!(args[0].value.as_deref(), Some("Hello, World"));
        }
        _ => panic!("expected ^FD"),
    }
}

#[test]
fn parse_with_tables_reports_unknown_and_unclosed_field() {
    let t = small_tables();
    let r = parse_with_tables("^XA^QQ1^FDabc", Some(&t));
    let ids: Vec<&str> = r.diagnostics.iter().map(|d| d.id.as_str()).collect();
    assert!(ids.contains(&"ZPL.PARSER.1002"));
    assert!(ids.contains(&"ZPL.PARSER.1004"));
    assert!(ids.contains(&"ZPL.PARSER.1003"));
}

#[test]
fn parse_prefix_change_retokenizes() {
    let r = parse_str("^XA^CC!!FO5,6!XZ");
    assert_eq!(r.ast.labels.len(), 1);
    let codes: Vec<String> = r.ast.labels[0]
        .nodes
        .iter()
        .filter_map(|n| match n {
            Node::Command { code, .. } => Some(code.clone()),
            _ => None,
        })
        .collect();
    assert_eq!(codes, vec!["^XA", "^CC", "^FO", "^XZ"]);
}

#[test]
fn format_flat_and_indented() {
    assert_eq!(format_zpl("^XA^FO10,20^FDHi^FS^XZ", None), "^XA\n^FO10,20\n^FDHi\n^FS\n^XZ\n");
    assert_eq!(
        format_zpl("^XA^FO10,20^FS^XZ", Some("label")),
        "^XA\n  ^FO10,20\n  ^FS\n^XZ\n"
    );
    assert_eq!(format_zpl("", None), "");
}

#[test]
fn parse_indent_names_styles() {
    assert_eq!(parse_indent(Some("label")), Indent::Label);
    assert_eq!(parse_indent(Some("field")), Indent::Field);
    assert_eq!(parse_indent(Some("none")), Indent::Flat);
    assert_eq!(parse_indent(None), Indent::Flat);
}

#[test]
fn emit_with_tables_indents_fields() {
    let t = small_tables();
    let r = parse_with_tables("^XA^FO1,2^FDHi^FS^XZ", Some(&t));
    let out = emit_zpl(&r.ast, Some(&t), &EmitConfig { indent: Indent::Field, ..EmitConfig::default() });
    assert_eq!(out, "^XA\n  ^FO1,2\n    ^FDHi\n    ^FS\n^XZ\n");
}

fn cmd(code: &str, args: Vec<zpl_toolchain_core::ast::ArgSlot>, start: usize, end: usize) -> Node {
    Node::Command { code: code.to_string(), args, span: Span::new(start, end) }
}

fn slot(key: Option<&str>, presence: Presence, value: Option<&str>) -> zpl_toolchain_core::ast::ArgSlot {
    zpl_toolchain_core::ast::ArgSlot {
        key: key.map(|k| k.to_string()),
        presence,
        value: value.map(|v| v.to_string()),
    }
}

#[test]
fn parse_cc_changes_the_command_prefix() {
    let r = parse_str("^XA^CC/\n/FO1,2/XZ");
    assert!(r.diagnostics.is_empty());
    assert_eq!(r.ast.labels.len(), 1);
    assert_eq!(
        r.ast.labels[0].nodes,
        vec![
            cmd("^XA", vec![], 0, 3),
            cmd("^CC", vec![slot(Some("x"), Presence::Value, Some("/"))], 3, 7),
            cmd(
                "^FO",
                vec![slot(None, Presence::Value, Some("1")), slot(None, Presence::Value, Some("2"))],
                8,
                14
            ),
            cmd("^XZ", vec![], 14, 17),
        ]
    );
}

#[test]
fn parse_leading_empty_argument_is_an_empty_slot() {
    let r = parse_str("^XA^FO,100^XZ");
    assert!(r.diagnostics.is_empty());
    assert_eq!(
        r.ast.labels[0].nodes[1],
        cmd(
            "^FO",
            vec![slot(None, Presence::Empty, None), slot(None, Presence::Value, Some("100"))],
            3,
            10
        )
    );
}

#[test]
fn parse_empty_and_unterminated_inputs_exactly() {
    let r = parse_str("");
    assert!(r.ast.labels.is_empty());
    assert_eq!(r.diagnostics.len(), 1);
    assert_eq!(r.diagnostics[0].id, "ZPL.PARSER.1006");
    assert_eq!(r.diagnostics[0].severity, Severity::Info);
    assert_eq!(r.diagnostics[0].message, "no labels detected");
    assert_eq!(r.diagnostics[0].span, Some(Span::empty(0)));

    let r = parse_str("^XA");
    assert_eq!(r.ast.labels.len(), 1);
    assert_eq!(r.ast.labels[0].nodes, vec![cmd("^XA", vec![], 0, 3)]);
    assert_eq!(r.diagnostics.len(), 1);
    assert_eq!(r.diagnostics[0].id, "ZPL.PARSER.1003");
    assert_eq!(r.diagnostics[0].severity, Severity::Error);
    assert_eq!(r.diagnostics[0].message, "missing terminator (^XZ)");
    assert_eq!(r.diagnostics[0].span, Some(Span::new(3, 3)));
}

#[test]
fn format_is_idempotent_on_a_sample() {
    let src = "^XA\n^FO10,20^FDHello^FS\n^XZ\n";
    let once = format_zpl(src, None);
    assert_eq!(format_zpl(&once, None), once);
    let once = format_zpl(src, Some("label"));
    assert_eq!(format_zpl(&once, Some("label")), once);
}

#[test]
fn tables_well_formed_accepts_small_tables() {
    assert!(zpl_toolchain_core::tables::tables_well_formed(&small_tables()));
}

#[test]
fn tables_well_formed_refuses_an_empty_split_rule() {
    let mut t = small_tables();
    let mut s = sig(&["a"]);
    s.split_rule = Some(zpl_toolchain_core::tables::SplitRule { param_index: 0, char_counts: vec![] });
    t.commands[2].signature = Some(s);
    assert!(!zpl_toolchain_core::tables::tables_well_formed(&t));
}

#[test]
fn format_defaults_to_inline_semicolon_comments() {
    let input = "^XA\n^PW812\n; set print width\n^XZ\n";
    let out = format_zpl(input, None);
    assert!(out.contains("^PW812 ; set print width"), "got:\n{out}");
    assert_eq!(format_zpl(&out, None), out);
}

#[test]
fn format_comment_placement_line_preserves_standalone_comment_lines() {
    let input = "^XA\n^PW812\n; set print width\n^XZ\n";
    let out = format_zpl_with_options(input, None, None, Some("line"));
    assert!(out.contains("^PW812\n; set print width"), "got:\n{out}");
}

#[test]
fn comments_parse_as_trivia_without_stray_warnings() {
    let r = parse_str("^XA\n^PW812\n; set print width\n^XZ\n");
    assert!(r.diagnostics.is_empty());
    assert_eq!(r.ast.labels[0].nodes[2], Node::Trivia { text: "; set print width".to_string(), span: Span::new(11, 28) });
    let r = parse_str("^XA\n^PW812 ; width\n^XZ\n");
    assert!(r.diagnostics.is_empty());
    assert_eq!(
        r.ast.labels[0].nodes[1],
        cmd("^PW", vec![slot(None, Presence::Value, Some("812"))], 4, 11)
    );
    assert_eq!(r.ast.labels[0].nodes[2], Node::Trivia { text: "; width".to_string(), span: Span::new(11, 18) });
}

fn field_tables() -> ParserTables {
    let mut t = small_tables();
    t.commands.push(entry(&["^A0"]));
    t
}

#[test]
fn format_compaction_puts_a_field_block_on_one_line() {
    let input = "^XA\n^PW609\n^LL406\n^FO30,30\n^A0N,35,35\n^FDWIDGET-3000\n^FS\n^XZ\n";
    let t = field_tables();
    let r = parse_with_tables(input, Some(&t));
    let cfg = EmitConfig { indent: Indent::Flat, compaction: Compaction::Field, comment_placement: CommentPlacement::Inline };
    let out = emit_zpl(&r.ast, Some(&t), &cfg);
    assert!(out.contains("^FO30,30^A0N,35,35^FDWIDGET-3000^FS"), "got:\n{out}");
    let cfg = EmitConfig { indent: Indent::Label, ..cfg };
    let out = emit_zpl(&r.ast, Some(&t), &cfg);
    assert!(out.lines().any(|line| line == "  ^FO30,30^A0N,35,35^FDWIDGET-3000^FS"), "got:\n{out}");
}

#[test]
fn compaction_and_comment_settings_parse() {
    assert_eq!(parse_compaction(Some("field")), Compaction::Field);
    assert_eq!(parse_compaction(None), Compaction::Off);
    assert_eq!(parse_comment_placement(None), CommentPlacement::Inline);
    assert_eq!(parse_comment_placement(Some("line")), CommentPlacement::Line);
    assert_eq!(parse_comment_placement(Some("bogus")), CommentPlacement::Inline);
}

#[test]
fn raw_payload_ending_in_a_line_break_is_kept_byte_for_byte() {
    let ast = Ast {
        labels: vec![Label {
            nodes: vec![
                cmd("^GF", vec![], 0, 3),
                Node::RawData { command: "^GF".to_string(), data: Some("a\n".to_string()), span: Span::new(3, 5) },
                Node::FieldData { content: "b".to_string(), hex_escaped: false, span: Span::new(5, 6) },
            ],
        }],
    };
    let out = emit_zpl(&ast, None, &EmitConfig::default());
    assert_eq!(out, "^GFa\nb\n");
    assert!(out.contains("a\n") && out.contains('b'));
}
