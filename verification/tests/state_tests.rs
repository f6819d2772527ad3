use zpl_toolchain_core::ast::{ArgSlot, Presence};
use zpl_toolchain_core::state::{
    StateValue,
    parse_char_arg, parse_u32, parse_u32_arg, parse_u8, DeviceState, FieldOrientationDefaults,
    FontDefaults, LabelValueState, Units,
};

fn slot(value: &str) -> ArgSlot {
    ArgSlot { key: None, presence: Presence::Value, value: Some(value.to_string()) }
}

#[test]
fn apply_mu_sets_units_and_dpi() {
    let mut device = DeviceState::default();
    device.apply_mu(&[slot("I"), slot("203"), slot("203")]);
    assert_eq!(device.units, Units::Inches);
    assert_eq!(device.dpi, Some(203));
    device.apply_mu(&[slot("m")]);
    assert_eq!(device.units, Units::Millimeters);
    assert_eq!(device.dpi, Some(203));
    device.apply_mu(&[slot("X"), slot("abc"), slot("300")]);
    assert_eq!(device.units, Units::Dots);
    assert_eq!(device.dpi, Some(203));
}

#[test]
fn apply_mu_twice_is_like_once() {
    let args = [slot("i"), slot("300"), slot("600")];
    let mut once = DeviceState::default();
    once.apply_mu(&args);
    let mut twice = DeviceState::default();
    twice.apply_mu(&args);
    twice.apply_mu(&args);
    assert_eq!(once.units, twice.units);
    assert_eq!(once.dpi, twice.dpi);
    assert_eq!(twice.dpi, Some(600));
}

#[test]
fn decimal_parsing_matches_std() {
    assert_eq!(parse_u32("42"), Some(42));
    assert_eq!(parse_u32("+42"), Some(42));
    assert_eq!(parse_u32("4294967295"), Some(4294967295));
    assert_eq!(parse_u32("4294967296"), None);
    assert_eq!(parse_u32(""), None);
    assert_eq!(parse_u32("+"), None);
    assert_eq!(parse_u32("-1"), None);
    assert_eq!(parse_u32("1 "), None);
    assert_eq!(parse_u8("255"), Some(255));
    assert_eq!(parse_u8("256"), None);
    for s in ["0", "7", "+19", "65535", "x", "99999999999"] {
        assert_eq!(parse_u32(s), s.parse::<u32>().ok());
        assert_eq!(parse_u8(s), s.parse::<u8>().ok());
    }
}

#[test]
fn argument_readers() {
    let args = [slot("12"), slot("AB"), ArgSlot { key: None, presence: Presence::Empty, value: None }];
    assert_eq!(parse_u32_arg(&args, 0), Some(12));
    assert_eq!(parse_u32_arg(&args, 1), None);
    assert_eq!(parse_u32_arg(&args, 2), None);
    assert_eq!(parse_u32_arg(&args, 9), None);
    assert_eq!(parse_char_arg(&args, 1), Some('A'));
    assert_eq!(parse_char_arg(&args, 2), None);
}

#[test]
fn font_and_orientation_defaults_update_given_fields() {
    let mut font = FontDefaults::default();
    font.apply_cf(&[slot("A"), slot("28"), slot("16")]);
    assert_eq!(font.font, Some('A'));
    assert_eq!(font.height, Some(28));
    assert_eq!(font.width, Some(16));
    font.apply_cf(&[slot("B")]);
    assert_eq!(font.font, Some('B'));
    assert_eq!(font.height, Some(28));
    assert_eq!(font.width, Some(16));

    let mut field = FieldOrientationDefaults::default();
    field.apply_fw(&[slot("R"), slot("1")]);
    assert_eq!(field.orientation, Some('R'));
    assert_eq!(field.justification, Some(1));
    field.apply_fw(&[slot("N"), slot("300")]);
    assert_eq!(field.orientation, Some('N'));
    assert_eq!(field.justification, Some(1));
}

#[test]
fn applies_typed_cf_and_fw_defaults() {
    let mut state = LabelValueState::new();
    state.apply_producer("^CF", &[slot("A"), slot("28"), slot("16")]);
    state.apply_producer("^FW", &[slot("R"), slot("1")]);
    assert_eq!(state.font.font, Some('A'));
    assert_eq!(state.font.height, Some(28));
    assert_eq!(state.font.width, Some(16));
    assert_eq!(state.field.orientation, Some('R'));
    assert_eq!(state.field.justification, Some(1));
}

#[test]
fn by_sets_module_width_and_height_and_keeps_missing_ones() {
    let mut state = LabelValueState::new();
    state.apply_producer("^BY", &[slot("2"), slot("2.5"), slot("40")]);
    state.apply_producer("^BY", &[slot("4")]);
    assert_eq!(state.barcode.module_width, Some(4));
    assert_eq!(state.barcode.height, Some(40));
    assert_eq!(state.state_value_by_key("barcode.moduleWidth"), StateValue::Value("4".to_string()));
    assert_eq!(state.state_value_by_key("barcode.height"), StateValue::Value("40".to_string()));
}

#[test]
fn layout_characters_and_unknown_keys() {
    let mut state = LabelValueState::new();
    state.apply_producer("^PO", &[slot("I")]);
    state.apply_producer("^PM", &[slot("Y")]);
    state.apply_producer("^LR", &[slot("N")]);
    assert_eq!(state.state_value_by_key("print.orientation"), StateValue::Value("I".to_string()));
    assert_eq!(state.state_value_by_key("print.mirror"), StateValue::Value("Y".to_string()));
    assert_eq!(state.state_value_by_key("label.reversePrint"), StateValue::Value("N".to_string()));
    assert_eq!(state.state_value_by_key("font.name"), StateValue::Unset);
    assert_eq!(state.state_value_by_key("no.such.key"), StateValue::Unset);
    for key in ["barcode.ratio", "label.home.x", "label.home.y", "label.width", "label.length", "label.top", "label.shift"] {
        assert_eq!(state.state_value_by_key(key), StateValue::NotComputed);
    }
    state.apply_producer("^PO", &[]);
    assert_eq!(state.print_orientation, None);
}
