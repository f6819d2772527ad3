use zpl_toolchain_core::coverage::{
    coverage_totals, issue_lines, missing_field_parts, rank_error_counts, sort_strings, str_lt, top_counts,
    CoverageReport, CoverageTotals,
};

fn strs(v: &[&str]) -> Vec<String> {
    v.iter().map(|s| s.to_string()).collect()
}

fn report() -> CoverageReport {
    CoverageReport {
        master_total: Some(200),
        present_in_spec_count: None,
        present_in_spec: Some(150),
        missing_in_spec_count: None,
        missing_in_spec_len: Some(50),
        with_signature: Some(140),
        with_args: None,
        with_constraints: Some(12),
        with_docs: Some(3),
        missing_by_code: None,
        code_issues: Vec::new(),
    }
}

#[test]
fn strings_order_by_code_point() {
    assert!(str_lt("a-x", "a:"));
    assert!(str_lt("a", "ab"));
    assert!(str_lt("B", "a"));
    assert!(!str_lt("ab", "ab"));
    assert!(!str_lt("b", "ab"));
    assert_eq!(sort_strings(strs(&["docs:2", "a:1", "args:1", "a-x:1"])), strs(&["a-x:1", "a:1", "args:1", "docs:2"]));
    assert_eq!(sort_strings(strs(&["b", "a", "b"])), strs(&["a", "b", "b"]));
}

#[test]
fn totals_fall_back_to_older_fields_and_zero() {
    let t = coverage_totals(&report());
    assert_eq!(
        t,
        CoverageTotals {
            master_total: 200,
            present: 150,
            missing: 50,
            with_signature: 140,
            with_args: 0,
            with_constraints: 12,
            with_docs: 3,
        }
    );
    let mut r = report();
    r.present_in_spec_count = Some(7);
    r.missing_in_spec_count = Some(9);
    r.master_total = None;
    let t2 = coverage_totals(&r);
    assert_eq!((t2.master_total, t2.present, t2.missing), (0, 7, 9));
}

#[test]
fn missing_fields_are_counted_and_sorted() {
    let lists = vec![strs(&["args", "docs"]), strs(&["docs"]), strs(&["a-x", "a"]), Vec::new()];
    assert_eq!(missing_field_parts(&lists), strs(&["a-x:1", "a:1", "args:1", "docs:2"]));
    assert!(missing_field_parts(&Vec::new()).is_empty());
}

#[test]
fn codes_rank_by_error_count_then_code() {
    let issues = vec![
        ("^B".to_string(), strs(&["e1"])),
        ("^C".to_string(), strs(&["e1", "e2"])),
        ("^A".to_string(), strs(&["e1", "e2"])),
        ("^D".to_string(), Vec::new()),
    ];
    let ranked = rank_error_counts(&issues);
    assert_eq!(
        ranked,
        vec![("^A".to_string(), 2), ("^C".to_string(), 2), ("^B".to_string(), 1), ("^D".to_string(), 0)]
    );
    assert_eq!(top_counts(&ranked, 2), strs(&["^A:2", "^C:2"]));
    assert_eq!(top_counts(&ranked, 10).len(), 4);
}

#[test]
fn issue_listing_shows_first_messages_of_five_codes_or_everything() {
    let issues: Vec<(String, Vec<String>)> = (1..=7)
        .map(|i| (format!("^C{i}"), if i == 2 { Vec::new() } else { strs(&["first", "second"]) }))
        .collect();
    let brief = issue_lines(&issues, false);
    assert_eq!(
        brief,
        strs(&["  1. ^C1: first", "  3. ^C3: first", "  4. ^C4: first", "  5. ^C5: first"])
    );
    let all = issue_lines(&issues, true);
    assert_eq!(all.len(), 12);
    assert_eq!(all[0], "  1. ^C1: first");
    assert_eq!(all[1], "  1. ^C1: second");
    assert_eq!(all[11], "  7. ^C7: second");
}
