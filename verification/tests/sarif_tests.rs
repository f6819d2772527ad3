use zpl_toolchain_core::diag::{Diagnostic, Severity, Span};
use zpl_toolchain_core::sarif::{line_col_of, sarif_level, sarif_region, sarif_rules};

fn diag(id: &str, message: &str) -> Diagnostic {
    Diagnostic { id: id.to_string(), severity: Severity::Warn, message: message.to_string(), span: None, context: None }
}

#[test]
fn sarif_levels_follow_severity() {
    assert_eq!(sarif_level(Severity::Error), "error");
    assert_eq!(sarif_level(Severity::Warn), "warning");
    assert_eq!(sarif_level(Severity::Info), "note");
}

#[test]
fn line_and_column_are_zero_based() {
    let src = "^XA\n^FO50,50\n^XZ\n";
    assert_eq!(line_col_of(src, 0), (0, 0));
    assert_eq!(line_col_of(src, 3), (0, 3));
    assert_eq!(line_col_of(src, 4), (1, 0));
    assert_eq!(line_col_of(src, 7), (1, 3));
    assert_eq!(line_col_of(src, 14), (2, 1));
    assert_eq!(line_col_of(src, src.len()), (3, 0));
}

#[test]
fn region_on_second_line_has_one_based_positions_and_snippet() {
    let src = "^XA\n^FO50,50\n^XZ\n";
    let r = sarif_region(src, Span { start: 4, end: 7 });
    assert_eq!(r.byte_offset, 4);
    assert_eq!(r.byte_length, 3);
    assert_eq!((r.start_line, r.start_column), (2, 1));
    assert_eq!((r.end_line, r.end_column), (2, 4));
    assert_eq!(r.snippet.as_deref(), Some("^FO"));
}

#[test]
fn region_is_clamped_to_the_source() {
    let src = "^XA^XZ";
    let r = sarif_region(src, Span { start: 4, end: 100 });
    assert_eq!(r.byte_offset, 4);
    assert_eq!(r.byte_length, 2);
    assert_eq!(r.snippet.as_deref(), Some("XZ"));
    let past = sarif_region(src, Span { start: 50, end: 60 });
    assert_eq!(past.byte_offset, 6);
    assert_eq!(past.byte_length, 0);
    assert_eq!((past.start_line, past.start_column), (1, 7));
    assert!(past.snippet.is_none());
}

#[test]
fn reversed_span_becomes_empty_region() {
    let src = "^XA^XZ";
    let r = sarif_region(src, Span { start: 3, end: 1 });
    assert_eq!(r.byte_offset, 3);
    assert_eq!(r.byte_length, 0);
    assert!(r.snippet.is_none());
}

#[test]
fn snippet_is_dropped_inside_a_multibyte_character() {
    let src = "^FDé^FS";
    // 'é' takes bytes 3..5; a span ending at byte 4 splits it.
    let r = sarif_region(src, Span { start: 0, end: 4 });
    assert_eq!(r.byte_length, 4);
    assert!(r.snippet.is_none());
    let whole = sarif_region(src, Span { start: 3, end: 5 });
    assert_eq!(whole.snippet.as_deref(), Some("é"));
}

#[test]
fn rules_are_unique_sorted_and_keep_the_first_message() {
    let ds = vec![
        diag("ZPL2201", "first b"),
        diag("ZPL1101", "first a"),
        diag("ZPL2201", "second b"),
        diag("ZPL1101", "second a"),
        diag("ZPL0001", "only"),
    ];
    let rules = sarif_rules(&ds);
    assert_eq!(
        rules,
        vec![
            ("ZPL0001".to_string(), "only".to_string()),
            ("ZPL1101".to_string(), "first a".to_string()),
            ("ZPL2201".to_string(), "first b".to_string()),
        ]
    );
}

#[test]
fn no_diagnostics_no_rules() {
    assert!(sarif_rules(&Vec::new()).is_empty());
}
