use zpl_toolchain_core::plan::{
    EffectIndexView, SemanticIndexView, StructuralFlags, StructuralIndexView, ValidationPlanContext,
};
use zpl_toolchain_core::profile::{Page, Profile};
use zpl_toolchain_core::tables::{CommandEntry, ParserTables};

fn codes(list: &[&str]) -> Vec<String> {
    list.iter().map(|s| s.to_string()).collect()
}

fn structural(opens: &[&str]) -> StructuralIndexView {
    StructuralIndexView {
        opens_field: codes(opens),
        closes_field: Vec::new(),
        field_data: Vec::new(),
        field_number: Vec::new(),
        serialization: Vec::new(),
        requires_field: Vec::new(),
        hex_escape_modifier: Vec::new(),
    }
}

fn ctx() -> ValidationPlanContext {
    ValidationPlanContext::from_views(
        Some(SemanticIndexView { semantic_codes: codes(&["^FO"]) }),
        Some(EffectIndexView { producer_codes: codes(&["^BY"]) }),
        Some(structural(&["^FO"])),
    )
}

#[test]
fn label_execution_plan_disables_batches_for_trivial_label() {
    let plan_ctx = ctx();
    let label_codes = codes(&["^ZZ"]);
    let plan = plan_ctx.plan_for_label(&label_codes, None);
    assert!(!plan.run_semantic_batch, "semantic batch should be skipped");
    assert!(!plan.run_effect_batch, "effect batch should be skipped");
    assert!(!plan.run_field_batch, "field batch should be skipped");
    assert!(!plan.run_preflight_gf_memory, "gf preflight batch should be skipped");
    assert!(
        !plan.run_preflight_missing_dimensions,
        "dimension preflight batch should be skipped without profile"
    );
}

#[test]
fn validation_plan_context_plans_from_injected_views() {
    let plan_ctx = ctx();
    let trivial_label = codes(&["^ZZ"]);
    let trivial_plan = plan_ctx.plan_for_label(&trivial_label, None);
    assert!(!trivial_plan.run_semantic_batch);
    assert!(!trivial_plan.run_effect_batch);
    assert!(!trivial_plan.run_field_batch);

    let active_label = codes(&["^FO", "^BY"]);
    let active_plan = plan_ctx.plan_for_label(&active_label, None);
    assert!(active_plan.run_semantic_batch);
    assert!(active_plan.run_effect_batch);
    assert!(active_plan.run_field_batch);
}

fn cmd(codes_: &[&str]) -> CommandEntry {
    CommandEntry {
        codes: codes(codes_),
        arity: 0,
        field_data: false,
        raw_payload: false,
        opens_field: false,
        closes_field: false,
        hex_escape_modifier: false,
        field_number: false,
        serialization: false,
        requires_field: false,
        signature: None,
        signature_overrides: None,
        scope: None,
        constraints: None,
        constraint_default_severity: None,
        has_effects: false,
        structural_rules: None,
        field_data_rules: None,
        printer_gates: None,
        plane: None,
        placement: None,
        args: None,
    }
}

#[test]
fn structural_flags_require_index_membership_when_index_present() {
    let mut fd = cmd(&["^FD"]);
    fd.field_data = true;
    let plan_ctx = ValidationPlanContext::from_views(None, None, Some(structural(&[])));
    let flags = plan_ctx.resolve_structural_flags("^FD", &fd);
    assert!(!flags.field_data);
    let no_index = ValidationPlanContext::from_views(None, None, None);
    assert!(no_index.resolve_structural_flags("^FD", &fd).field_data);
}

#[test]
fn views_from_tables_without_rule_index() {
    let mut fo = cmd(&["^FO", "^FT"]);
    fo.opens_field = true;
    fo.structural_rules = Some(Vec::new());
    let mut by = cmd(&["^BY"]);
    by.has_effects = true;
    let tables = ParserTables { commands: vec![fo, by], opcode_trie: None, structural_rule_index: None };
    let sem = SemanticIndexView::from_tables(&tables).unwrap();
    assert!(sem.contains("^FT"));
    assert!(!sem.contains("^BY"));
    let eff = EffectIndexView::from_tables(&tables).unwrap();
    assert!(eff.contains("^BY"));
    let plan_ctx = ValidationPlanContext::from_tables(&tables);
    let label = codes(&["^FT"]);
    let plan = plan_ctx.plan_for_label(&label, None);
    assert!(plan.run_semantic_batch);
    assert!(!plan.run_effect_batch);
    assert!(plan.run_field_batch);
    assert!(plan_ctx.is_effect_producer("^BY", false, &plan_ctx.plan_for_label(&codes(&["^BY"]), None)));
    assert!(!plan_ctx.is_effect_producer("^BY", false, &plan));
}

#[test]
fn plan_preflight_flags() {
    let plan_ctx = ValidationPlanContext::from_views(None, None, None);
    let p = Profile {
        id: "p".to_string(),
        dpi: 203,
        page: Some(Page { width_dots: Some(812), height_dots: None }),
        features: None,
        memory: None,
        media: None,
    };
    let plan = plan_ctx.plan_for_label(&codes(&["^GF"]), Some(&p));
    assert!(plan.run_semantic_batch && plan.run_effect_batch && plan.run_field_batch);
    assert!(plan.run_preflight_gf_memory);
    assert!(plan.run_preflight_missing_dimensions);
    let flags = StructuralFlags {
        opens_field: false,
        closes_field: false,
        field_data: false,
        field_number: false,
        serialization: true,
        requires_field: false,
        hex_escape_modifier: false,
    };
    assert!(flags.is_field_related());
}
