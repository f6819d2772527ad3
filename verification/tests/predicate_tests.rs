use zpl_toolchain_core::ast::{ArgSlot, Presence};
use zpl_toolchain_core::predicates::{
    any_target_in_set, enum_contains, evaluate_note_when_expression, firmware_version_gte,
    predicate_matches, profile_predicate_matches,
};
use zpl_toolchain_core::profile::{Memory, Profile};
use zpl_toolchain_core::tables::EnumValue;

fn profile(id: &str, dpi: u32) -> Profile {
    Profile { id: id.to_string(), dpi, page: None, features: None, memory: None, media: None }
}

fn codes(list: &[&str]) -> Vec<String> {
    list.iter().map(|s| s.to_string()).collect()
}

fn slot(key: &str, presence: Presence, value: Option<&str>) -> ArgSlot {
    ArgSlot { key: Some(key.to_string()), presence, value: value.map(|v| v.to_string()) }
}

#[test]
fn profile_predicate_id_matches() {
    let p = profile("zebra-xi4-203", 203);
    assert!(profile_predicate_matches("profile:id:zebra-xi4-203", Some(&p)));
    assert!(profile_predicate_matches("profile:id:zebra-xi4-203|other", Some(&p)));
    assert!(!profile_predicate_matches("profile:id:other-id", Some(&p)));
    assert!(!profile_predicate_matches("profile:id:zebra-xi4-203", None));
}

#[test]
fn profile_predicate_dpi_matches() {
    let p = profile("test", 600);
    assert!(profile_predicate_matches("profile:dpi:600", Some(&p)));
    assert!(profile_predicate_matches("profile:dpi:203|600", Some(&p)));
    assert!(!profile_predicate_matches("profile:dpi:203", Some(&p)));
}

#[test]
fn profile_predicate_feature_matches() {
    let mut p = profile("test", 203);
    p.features = Some(vec![("cutter".to_string(), true), ("rfid".to_string(), false)]);
    assert!(profile_predicate_matches("profile:feature:cutter", Some(&p)));
    assert!(profile_predicate_matches("profile:featureMissing:rfid", Some(&p)));
    assert!(!profile_predicate_matches("profile:feature:rfid", Some(&p)));
    assert!(!profile_predicate_matches("profile:featureMissing:cutter", Some(&p)));
}

#[test]
fn profile_predicate_firmware_prefix() {
    let mut p = profile("test", 203);
    p.memory = Some(Memory { ram_kb: None, flash_kb: None, firmware_version: Some("V60.19.15Z".to_string()) });
    assert!(profile_predicate_matches("profile:firmware:V60", Some(&p)));
    assert!(profile_predicate_matches("profile:firmware:V60.19", Some(&p)));
    assert!(!profile_predicate_matches("profile:firmware:V50", Some(&p)));
}

#[test]
fn firmware_version_gte_ordering() {
    assert!(firmware_version_gte("V60.19.15Z", "V60.14"));
    assert!(firmware_version_gte("V60.19.15Z", "V60.19"));
    assert!(firmware_version_gte("V60.14.0", "V60.14"));
    assert!(!firmware_version_gte("V60.13.9", "V60.14"));
    assert!(!firmware_version_gte("V50.20.0", "V60.14"));
    assert!(firmware_version_gte("X60.16.0", "V60.16"));
}

#[test]
fn any_target_in_set_trims_whitespace() {
    let seen = codes(&["^FD", "^FV"]);
    assert!(any_target_in_set("^FD | ^FO", &seen));
    assert!(any_target_in_set(" ^FV ", &seen));
    assert!(!any_target_in_set(" | ", &seen));
}

#[test]
fn firmware_version_unparsable_is_never_gte() {
    assert!(!firmware_version_gte("abc", "V60.14"));
    assert!(!firmware_version_gte("V60.14", ""));
    assert!(firmware_version_gte("V61", "V60.99"));
    assert!(firmware_version_gte("60.2x", "60.2"));
}

#[test]
fn profile_predicate_model_and_firmware_gte() {
    let mut p = profile("zebra-zt410-300", 300);
    assert!(profile_predicate_matches("profile:model:zt410", Some(&p)));
    assert!(profile_predicate_matches("profile:model:", Some(&p)));
    assert!(!profile_predicate_matches("profile:model:zt610", Some(&p)));
    assert!(!profile_predicate_matches("profile:firmwareGte:V60.14", Some(&p)));
    p.memory = Some(Memory { ram_kb: Some(512), flash_kb: None, firmware_version: Some("V60.19.15Z".to_string()) });
    assert!(profile_predicate_matches("profile:firmwareGte: V60.14 ", Some(&p)));
    assert!(!profile_predicate_matches("profile:unknown:x", Some(&p)));
}

#[test]
fn arg_predicates_match_keys_values_and_presence() {
    let args = vec![
        slot("o", Presence::Value, Some("R")),
        slot("h", Presence::Empty, None),
    ];
    assert!(predicate_matches("arg:oIsValue:N|R", &args));
    assert!(!predicate_matches("arg:oIsValue:N|I", &args));
    assert!(predicate_matches("arg:oPresent", &args));
    assert!(!predicate_matches("arg:hPresent", &args));
    assert!(predicate_matches("arg:hEmpty", &args));
    assert!(!predicate_matches("arg:o", &args));
    assert!(!predicate_matches("label:has:^FO", &args));
}

#[test]
fn note_when_expressions_combine_terms() {
    let args = vec![slot("o", Presence::Value, Some("R"))];
    let label = codes(&["^FO", "^BY"]);
    assert!(evaluate_note_when_expression("label:has:^FO && arg:oIsValue:R", &args, &label, None));
    assert!(!evaluate_note_when_expression("label:has:^FO && !arg:oIsValue:R", &args, &label, None));
    assert!(evaluate_note_when_expression("label:missing:^GF || arg:oIsValue:N", &args, &label, None));
    assert!(!evaluate_note_when_expression("", &args, &label, None));
    assert!(!evaluate_note_when_expression("profile:dpi:203", &args, &label, None));
    let p = profile("x", 203);
    assert!(evaluate_note_when_expression(" profile:dpi:203 ", &args, &label, Some(&p)));
}

#[test]
fn enum_contains_checks_simple_and_object_values() {
    let values = vec![
        EnumValue::Simple("N".to_string()),
        EnumValue::Object { value: "R".to_string(), printer_gates: None },
    ];
    assert!(enum_contains(&values, "N"));
    assert!(enum_contains(&values, "R"));
    assert!(!enum_contains(&values, "B"));
}
