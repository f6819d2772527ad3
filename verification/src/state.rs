//! Device and label state that commands produce: units and resolution from
//! `^MU`, font defaults from `^CF`, field orientation defaults from `^FW`,
//! and the decimal argument readers they share.

use crate::ast::ArgSlot;
use crate::text::{chars_of, decimal, digit_char};
use vstd::prelude::*;
use vstd::string::*;

verus! {

broadcast use vstd::seq::group_seq_axioms;

/// Unit system for measurement conversion.
#[derive(Debug, Clone, Copy, PartialEq, Eq, Structural)]
pub enum Units {
    /// Values are already in printer dots.
    Dots,
    /// Values are expressed in inches.
    Inches,
    /// Values are expressed in millimeters.
    Millimeters,
}

impl Default for Units {
    fn default() -> (u: Units)
        ensures
            u == Units::Dots,
    {
        Units::Dots
    }
}

/// Session/device-scoped state that persists across labels.
#[derive(Debug, Clone)]
pub struct DeviceState {
    /// Session-scoped producer codes (persist across labels), each once.
    pub session_producers: Vec<String>,
    /// Active unit system from `^MU` (default: dots).
    pub units: Units,
    /// DPI for unit conversion (from profile or `^MU`).
    pub dpi: Option<u32>,
}

impl Default for DeviceState {
    fn default() -> (d: DeviceState)
        ensures
            d.session_producers@.len() == 0,
            d.units == Units::Dots,
            d.dpi is None,
    {
        DeviceState { session_producers: Vec::new(), units: Units::Dots, dpi: None }
    }
}

/// An ASCII decimal digit.
pub open spec fn is_ascii_digit(c: char) -> bool {
    '0' <= c <= '9'
}

/// The value of a string of decimal digits (most significant first).
pub open spec fn digits_value(s: Seq<char>) -> nat
    decreases s.len(),
{
    if s.len() == 0 {
        0
    } else {
        digits_value(s.drop_last()) * 10 + ((s.last() as u32) - 48) as nat
    }
}

/// `s` without one leading `+`, if it has one.
pub open spec fn without_plus(s: Seq<char>) -> Seq<char> {
    if s.len() > 0 && s[0] == '+' {
        s.drop_first()
    } else {
        s
    }
}

/// Every character is an ASCII digit.
pub open spec fn all_digits(d: Seq<char>) -> bool {
    forall|i: int| 0 <= i < d.len() ==> is_ascii_digit(#[trigger] d[i])
}

/// The digits of an unsigned decimal number as `str::parse` reads one: an
/// optional `+` followed by one or more ASCII digits, and nothing else.
pub open spec fn unsigned_digits(s: Seq<char>) -> Option<Seq<char>> {
    let d = without_plus(s);
    if d.len() > 0 && all_digits(d) {
        Some(d)
    } else {
        None
    }
}

/// The unsigned number `s` denotes, when it is well-formed and at most `max`
/// (what `str::parse::<u8>` or `::<u32>` gives with `max` the type's largest value).
pub open spec fn parse_unsigned(s: Seq<char>, max: nat) -> Option<nat> {
    match unsigned_digits(s) {
        Some(d) => if digits_value(d) <= max {
            Some(digits_value(d))
        } else {
            None
        },
        None => None,
    }
}

proof fn lemma_digits_value_step(s: Seq<char>, i: int)
    requires
        0 <= i < s.len(),
    ensures
        digits_value(s.take(i + 1)) == digits_value(s.take(i)) * 10 + ((s[i] as u32) - 48) as nat,
{
    assert(s.take(i + 1).drop_last() =~= s.take(i));
}

proof fn lemma_digits_value_mono(s: Seq<char>, i: int, j: int)
    requires
        0 <= i <= j <= s.len(),
        all_digits(s),
    ensures
        digits_value(s.take(i)) <= digits_value(s.take(j)),
    decreases j - i,
{
    if i < j {
        lemma_digits_value_mono(s, i, j - 1);
        lemma_digits_value_step(s, j - 1);
    }
}

/// Reads an unsigned decimal number no larger than `max` (see
/// [`parse_unsigned`]).
pub fn parse_unsigned_exec(s: &str, max: u64) -> (r: Option<u64>)
    ensures
        r matches Some(v) ==> parse_unsigned(s@, max as nat) == Some(v as nat),
        r is None ==> parse_unsigned(s@, max as nat) is None,
{
    let cs = chars_of(s);
    let start: usize = if cs.len() > 0 && cs[0] == '+' {
        1
    } else {
        0
    };
    let ghost d = without_plus(s@);
    assert(d =~= cs@.subrange(start as int, cs@.len() as int));
    if start >= cs.len() {
        return None;
    }
    let mut i: usize = start;
    while i < cs.len()
        invariant
            start <= i <= cs.len(),
            cs@ == s@,
            d == without_plus(s@),
            d =~= cs@.subrange(start as int, cs@.len() as int),
            forall|k: int| start <= k < i ==> is_ascii_digit(#[trigger] cs@[k]),
        decreases cs.len() - i,
    {
        if !(cs[i] >= '0' && cs[i] <= '9') {
            proof {
                let w = i - start;
                assert(d[w] == cs@[i as int]);
                assert(!all_digits(d));
            }
            return None;
        }
        i = i + 1;
    }
    assert(all_digits(d)) by {
        assert forall|k: int| 0 <= k < d.len() implies is_ascii_digit(#[trigger] d[k]) by {
            assert(d[k] == cs@[start + k]);
        }
    }
    let mut acc: u128 = 0;
    let mut j: usize = start;
    while j < cs.len()
        invariant
            start <= j <= cs.len(),
            cs@ == s@,
            d == without_plus(s@),
            d =~= cs@.subrange(start as int, cs@.len() as int),
            all_digits(d),
            acc <= max,
            acc as nat == digits_value(d.take(j - start)),
        decreases cs.len() - j,
    {
        proof {
            lemma_digits_value_step(d, j - start);
            assert(d[j - start] == cs@[j as int]);
            assert(is_ascii_digit(d[j - start]));
            assert(acc * 10 <= u64::MAX * 10) by (nonlinear_arith)
                requires
                    acc <= u64::MAX,
            ;
        }
        let digit = (cs[j] as u32 - 48) as u128;
        acc = acc * 10 + digit;
        j = j + 1;
        if acc > max as u128 {
            proof {
                lemma_digits_value_mono(d, j - start, d.len() as int);
                assert(d.take(d.len() as int) =~= d);
            }
            return None;
        }
    }
    assert(d.take(d.len() as int) =~= d);
    Some(acc as u64)
}

/// Reads a `usize` the way `str::parse::<usize>` does.
pub fn parse_usize(s: &str) -> (r: Option<usize>)
    ensures
        r matches Some(v) ==> parse_unsigned(s@, usize::MAX as nat) == Some(v as nat),
        r is None ==> parse_unsigned(s@, usize::MAX as nat) is None,
{
    match parse_unsigned_exec(s, usize::MAX as u64) {
        Some(v) => Some(v as usize),
        None => None,
    }
}

/// Reads a `u32` the way `str::parse::<u32>` does.
pub fn parse_u32(s: &str) -> (r: Option<u32>)
    ensures
        r matches Some(v) ==> parse_unsigned(s@, u32::MAX as nat) == Some(v as nat),
        r is None ==> parse_unsigned(s@, u32::MAX as nat) is None,
{
    match parse_unsigned_exec(s, 4294967295u64) {
        Some(v) => Some(v as u32),
        None => None,
    }
}

/// Reads a `u8` the way `str::parse::<u8>` does.
pub fn parse_u8(s: &str) -> (r: Option<u8>)
    ensures
        r matches Some(v) ==> parse_unsigned(s@, u8::MAX as nat) == Some(v as nat),
        r is None ==> parse_unsigned(s@, u8::MAX as nat) is None,
{
    match parse_unsigned_exec(s, 255u64) {
        Some(v) => Some(v as u8),
        None => None,
    }
}

/// The value of argument `i`, if there is one.
pub open spec fn arg_value(args: Seq<ArgSlot>, i: int) -> Option<Seq<char>> {
    if 0 <= i < args.len() && args[i].value is Some {
        Some(args[i].value->0@)
    } else {
        None
    }
}

/// The number argument `i` holds, when it is a decimal number up to `max`.
pub open spec fn arg_unsigned(args: Seq<ArgSlot>, i: int, max: nat) -> Option<nat> {
    match arg_value(args, i) {
        Some(v) => parse_unsigned(v, max),
        None => None,
    }
}

/// The first character of argument `i`, if it has one.
pub open spec fn arg_first_char(args: Seq<ArgSlot>, i: int) -> Option<char> {
    match arg_value(args, i) {
        Some(v) => if v.len() > 0 {
            Some(v[0])
        } else {
            None
        },
        None => None,
    }
}

/// Argument `idx` read as a `u32`.
pub fn parse_u32_arg(args: &[ArgSlot], idx: usize) -> (r: Option<u32>)
    ensures
        r matches Some(v) ==> arg_unsigned(args@, idx as int, u32::MAX as nat) == Some(v as nat),
        r is None ==> arg_unsigned(args@, idx as int, u32::MAX as nat) is None,
{
    if idx < args.len() {
        match &args[idx].value {
            Some(v) => parse_u32(v.as_str()),
            None => None,
        }
    } else {
        None
    }
}

/// Argument `idx` read as a `u8`.
pub fn parse_u8_arg(args: &[ArgSlot], idx: usize) -> (r: Option<u8>)
    ensures
        r matches Some(v) ==> arg_unsigned(args@, idx as int, u8::MAX as nat) == Some(v as nat),
        r is None ==> arg_unsigned(args@, idx as int, u8::MAX as nat) is None,
{
    if idx < args.len() {
        match &args[idx].value {
            Some(v) => parse_u8(v.as_str()),
            None => None,
        }
    } else {
        None
    }
}

/// The first character of argument `idx`.
pub fn parse_char_arg(args: &[ArgSlot], idx: usize) -> (r: Option<char>)
    ensures
        r == arg_first_char(args@, idx as int),
{
    if idx < args.len() {
        match &args[idx].value {
            Some(v) => {
                let cs = chars_of(v.as_str());
                if cs.len() > 0 {
                    Some(cs[0])
                } else {
                    None
                }
            },
            None => None,
        }
    } else {
        None
    }
}

/// The unit system a `^MU` unit argument selects, compared without regard
/// to ASCII case: `I` inches, `M` millimeters, anything else dots.
pub open spec fn units_for(v: Seq<char>) -> Units {
    if v == "I"@ || v == "i"@ {
        Units::Inches
    } else if v == "M"@ || v == "m"@ {
        Units::Millimeters
    } else {
        Units::Dots
    }
}

/// The device state after `^MU` with `args`: a unit argument selects the
/// units; a conversion resolution is taken only when both the format base
/// resolution and the desired resolution are numbers.
pub open spec fn spec_apply_mu(s: DeviceState, args: Seq<ArgSlot>) -> DeviceState {
    DeviceState {
        session_producers: s.session_producers,
        units: match arg_value(args, 0) {
            Some(v) => units_for(v),
            None => s.units,
        },
        dpi: if arg_unsigned(args, 1, u32::MAX as nat) is Some && arg_unsigned(
            args,
            2,
            u32::MAX as nat,
        ) is Some {
            Some(arg_unsigned(args, 2, u32::MAX as nat)->0 as u32)
        } else {
            s.dpi
        },
    }
}

impl DeviceState {
    /// Applies `^MU` settings to the active units and the optional
    /// conversion resolution.
    pub fn apply_mu(&mut self, args: &[ArgSlot])
        ensures
            *final(self) == spec_apply_mu(*old(self), args@),
    {
        if args.len() > 0 {
            if let Some(unit_arg) = &args[0].value {
                let cs = chars_of(unit_arg.as_str());
                let u = if cs.len() == 1 && (cs[0] == 'I' || cs[0] == 'i') {
                    Units::Inches
                } else if cs.len() == 1 && (cs[0] == 'M' || cs[0] == 'm') {
                    Units::Millimeters
                } else {
                    Units::Dots
                };
                proof {
                    assert(cs@ == args@[0].value->0@);
                    assert(arg_value(args@, 0) == Some(cs@));
                    reveal_strlit("I");
                    reveal_strlit("i");
                    reveal_strlit("M");
                    reveal_strlit("m");
                    if cs@.len() == 1 && cs@[0] == 'I' {
                        assert(cs@ =~= "I"@);
                    } else if cs@.len() == 1 && cs@[0] == 'i' {
                        assert(cs@ =~= "i"@);
                    } else if cs@.len() == 1 && cs@[0] == 'M' {
                        assert(cs@ =~= "M"@);
                    } else if cs@.len() == 1 && cs@[0] == 'm' {
                        assert(cs@ =~= "m"@);
                    }
                }
                self.units = u;
                assert(u == units_for(cs@));
            }
        }
        let format_base_dpi = parse_u32_arg(args, 1);
        let desired_dpi = parse_u32_arg(args, 2);
        if format_base_dpi.is_some() {
            if let Some(dpi) = desired_dpi {
                self.dpi = Some(dpi);
            }
        }
        assert(self.units == spec_apply_mu(*old(self), args@).units);
        assert(self.dpi == spec_apply_mu(*old(self), args@).dpi);
        assert(self.session_producers == spec_apply_mu(*old(self), args@).session_producers);
    }
}

/// Typed font defaults from `^CF`.
#[derive(Debug, Clone, Copy)]
pub struct FontDefaults {
    /// Default font identifier.
    pub font: Option<char>,
    /// Default font height in dots.
    pub height: Option<u32>,
    /// Default font width in dots.
    pub width: Option<u32>,
}

impl Default for FontDefaults {
    fn default() -> (f: FontDefaults)
        ensures
            f.font is None && f.height is None && f.width is None,
    {
        FontDefaults { font: None, height: None, width: None }
    }
}

/// A field update: the new value where there is one, else the old one.
pub open spec fn or_keep<T>(new: Option<T>, old: Option<T>) -> Option<T> {
    match new {
        Some(v) => Some(v),
        None => old,
    }
}

/// A `u32` option from a number option.
pub open spec fn as_u32_opt(v: Option<nat>) -> Option<u32> {
    match v {
        Some(n) => Some(n as u32),
        None => None,
    }
}

/// A `u8` option from a number option.
pub open spec fn as_u8_opt(v: Option<nat>) -> Option<u8> {
    match v {
        Some(n) => Some(n as u8),
        None => None,
    }
}

impl FontDefaults {
    /// Applies `^CF` (font, height, width): each argument that is given and
    /// readable replaces its default; the others stay.
    pub fn apply_cf(&mut self, args: &[ArgSlot])
        ensures
            final(self).font == or_keep(arg_first_char(args@, 0), old(self).font),
            final(self).height == or_keep(as_u32_opt(arg_unsigned(args@, 1, u32::MAX as nat)), old(self).height),
            final(self).width == or_keep(as_u32_opt(arg_unsigned(args@, 2, u32::MAX as nat)), old(self).width),
    {
        if let Some(c) = parse_char_arg(args, 0) {
            self.font = Some(c);
        }
        if let Some(h) = parse_u32_arg(args, 1) {
            self.height = Some(h);
        }
        if let Some(w) = parse_u32_arg(args, 2) {
            self.width = Some(w);
        }
    }
}

/// Typed field orientation defaults from `^FW`.
#[derive(Debug, Clone, Copy)]
pub struct FieldOrientationDefaults {
    /// Default orientation (N/R/I/B).
    pub orientation: Option<char>,
    /// Default justification value.
    pub justification: Option<u8>,
}

impl Default for FieldOrientationDefaults {
    fn default() -> (f: FieldOrientationDefaults)
        ensures
            f.orientation is None && f.justification is None,
    {
        FieldOrientationDefaults { orientation: None, justification: None }
    }
}

impl FieldOrientationDefaults {
    /// Applies `^FW` (orientation, justification): each argument that is
    /// given and readable replaces its default; the other stays.
    pub fn apply_fw(&mut self, args: &[ArgSlot])
        ensures
            final(self).orientation == or_keep(arg_first_char(args@, 0), old(self).orientation),
            final(self).justification == or_keep(
                as_u8_opt(arg_unsigned(args@, 1, u8::MAX as nat)),
                old(self).justification,
            ),
    {
        if let Some(c) = parse_char_arg(args, 0) {
            self.orientation = Some(c);
        }
        if let Some(j) = parse_u8_arg(args, 1) {
            self.justification = Some(j);
        }
    }
}

/// Typed barcode defaults from `^BY`: module width and height in dots.
/// The wide-to-narrow ratio, a floating-point value, is not held.
#[derive(Debug, Clone, Copy)]
pub struct BarcodeDefaults {
    /// Default module width in dots.
    pub module_width: Option<u32>,
    /// Default barcode height in dots.
    pub height: Option<u32>,
}

impl BarcodeDefaults {
    /// Applies `^BY` (module width, ratio, height): the module width and
    /// height that are given and readable replace their defaults.
    pub fn apply_by(&mut self, args: &[ArgSlot])
        ensures
            final(self).module_width == or_keep(
                as_u32_opt(arg_unsigned(args@, 0, u32::MAX as nat)),
                old(self).module_width,
            ),
            final(self).height == or_keep(as_u32_opt(arg_unsigned(args@, 2, u32::MAX as nat)), old(self).height),
    {
        if let Some(w) = parse_u32_arg(args, 0) {
            self.module_width = Some(w);
        }
        if let Some(h) = parse_u32_arg(args, 2) {
            self.height = Some(h);
        }
    }
}

/// Per-label typed producer values with integer and character values:
/// barcode, font and field orientation defaults, and the print
/// orientation, mirror image and reverse print settings. Label home and
/// layout dimensions, held in floating point, are not part of it.
#[derive(Debug, Clone, Copy)]
pub struct LabelValueState {
    pub barcode: BarcodeDefaults,
    pub font: FontDefaults,
    pub field: FieldOrientationDefaults,
    /// Print orientation (`^PO`), e.g. `N` or `I`.
    pub print_orientation: Option<char>,
    /// Mirror image setting (`^PM`), usually `Y`/`N`.
    pub mirror_image: Option<char>,
    /// Label reverse print (`^LR`), usually `Y`/`N`.
    pub reverse_print: Option<char>,
}

/// The values at the start of a label: none set.
pub open spec fn no_values() -> LabelValueState {
    LabelValueState {
        barcode: BarcodeDefaults { module_width: None, height: None },
        font: FontDefaults { font: None, height: None, width: None },
        field: FieldOrientationDefaults { orientation: None, justification: None },
        print_orientation: None,
        mirror_image: None,
        reverse_print: None,
    }
}

/// The values after producer `code` with arguments `args`: `^BY`, `^CF`
/// and `^FW` update their defaults, `^PO`, `^PM` and `^LR` set their
/// setting to the first character of their first argument (or clear it).
pub open spec fn spec_apply_producer(v: LabelValueState, code: Seq<char>, args: Seq<ArgSlot>) -> LabelValueState {
    if code == "^BY"@ {
        LabelValueState {
            barcode: BarcodeDefaults {
                module_width: or_keep(as_u32_opt(arg_unsigned(args, 0, u32::MAX as nat)), v.barcode.module_width),
                height: or_keep(as_u32_opt(arg_unsigned(args, 2, u32::MAX as nat)), v.barcode.height),
            },
            ..v
        }
    } else if code == "^CF"@ {
        LabelValueState {
            font: FontDefaults {
                font: or_keep(arg_first_char(args, 0), v.font.font),
                height: or_keep(as_u32_opt(arg_unsigned(args, 1, u32::MAX as nat)), v.font.height),
                width: or_keep(as_u32_opt(arg_unsigned(args, 2, u32::MAX as nat)), v.font.width),
            },
            ..v
        }
    } else if code == "^FW"@ {
        LabelValueState {
            field: FieldOrientationDefaults {
                orientation: or_keep(arg_first_char(args, 0), v.field.orientation),
                justification: or_keep(as_u8_opt(arg_unsigned(args, 1, u8::MAX as nat)), v.field.justification),
            },
            ..v
        }
    } else if code == "^PO"@ {
        LabelValueState { print_orientation: arg_first_char(args, 0), ..v }
    } else if code == "^PM"@ {
        LabelValueState { mirror_image: arg_first_char(args, 0), ..v }
    } else if code == "^LR"@ {
        LabelValueState { reverse_print: arg_first_char(args, 0), ..v }
    } else {
        v
    }
}

/// The decimal text of a number, if there is one.
pub open spec fn opt_decimal(n: Option<u32>) -> Option<Seq<char>> {
    match n {
        Some(x) => Some(decimal(x as nat)),
        None => None,
    }
}

/// The text of a character, if there is one.
pub open spec fn opt_char_text(c: Option<char>) -> Option<Seq<char>> {
    match c {
        Some(x) => Some(seq![x]),
        None => None,
    }
}

/// The text of the value a state key names: `barcode.moduleWidth`,
/// `barcode.height`, `font.name`, `font.height`, `font.width`,
/// `field.orientation`, `field.justification`, `print.orientation`,
/// `print.mirror` and `label.reversePrint`; other keys name nothing here.
pub open spec fn spec_state_value(v: LabelValueState, key: Seq<char>) -> Option<Seq<char>> {
    if key == "barcode.moduleWidth"@ {
        opt_decimal(v.barcode.module_width)
    } else if key == "barcode.height"@ {
        opt_decimal(v.barcode.height)
    } else if key == "font.name"@ {
        opt_char_text(v.font.font)
    } else if key == "font.height"@ {
        opt_decimal(v.font.height)
    } else if key == "font.width"@ {
        opt_decimal(v.font.width)
    } else if key == "field.orientation"@ {
        opt_char_text(v.field.orientation)
    } else if key == "field.justification"@ {
        match v.field.justification {
            Some(j) => Some(decimal(j as nat)),
            None => None,
        }
    } else if key == "print.orientation"@ {
        opt_char_text(v.print_orientation)
    } else if key == "print.mirror"@ {
        opt_char_text(v.mirror_image)
    } else if key == "label.reversePrint"@ {
        opt_char_text(v.reverse_print)
    } else {
        None
    }
}

/// The keys whose values the label state holds as floating-point numbers
/// (bar ratio, label home, print width and length, label top and shift).
/// Their values are not computed here.
pub open spec fn float_state_key(key: Seq<char>) -> bool {
    ||| key == "barcode.ratio"@
    ||| key == "label.home.x"@
    ||| key == "label.home.y"@
    ||| key == "label.width"@
    ||| key == "label.length"@
    ||| key == "label.top"@
    ||| key == "label.shift"@
}

/// What looking up a state key gives.
#[derive(Debug, Clone, PartialEq)]
pub enum StateValue {
    /// The text of the key's value.
    Value(String),
    /// The key names no value: unknown, or not set in this label.
    Unset,
    /// The key names a floating-point value, which is not computed here.
    NotComputed,
}

/// A state lookup as plain values.
pub enum StateValueView {
    Value(Seq<char>),
    Unset,
    NotComputed,
}

/// The plain view of a state lookup.
pub open spec fn state_value_view(v: StateValue) -> StateValueView {
    match v {
        StateValue::Value(t) => StateValueView::Value(t@),
        StateValue::Unset => StateValueView::Unset,
        StateValue::NotComputed => StateValueView::NotComputed,
    }
}

/// Looking up `key` in `v`: the floating-point keys are not computed; the
/// others give their value's text (see [`spec_state_value`]) or nothing.
pub open spec fn spec_state_lookup(v: LabelValueState, key: Seq<char>) -> StateValueView {
    if float_state_key(key) {
        StateValueView::NotComputed
    } else {
        match spec_state_value(v, key) {
            Some(t) => StateValueView::Value(t),
            None => StateValueView::Unset,
        }
    }
}

fn decimal_text(n: Option<u32>) -> (r: Option<String>)
    ensures
        match r {
            Some(t) => opt_decimal(n) == Some(t@),
            None => opt_decimal(n) is None,
        },
{
    match n {
        Some(x) => Some(crate::text::u64_to_decimal(x as u64)),
        None => None,
    }
}

fn char_text(c: Option<char>) -> (r: Option<String>)
    ensures
        match r {
            Some(t) => opt_char_text(c) == Some(t@),
            None => opt_char_text(c) is None,
        },
{
    match c {
        Some(x) => Some(crate::text::char_string(x)),
        None => None,
    }
}

/// Whether `key` names a floating-point value (see [`float_state_key`]).
pub fn is_float_state_key(key: &str) -> (r: bool)
    ensures
        r == float_state_key(key@),
{
    crate::text::str_eq(key, "barcode.ratio") || crate::text::str_eq(key, "label.home.x")
        || crate::text::str_eq(key, "label.home.y") || crate::text::str_eq(key, "label.width")
        || crate::text::str_eq(key, "label.length") || crate::text::str_eq(key, "label.top")
        || crate::text::str_eq(key, "label.shift")
}

impl LabelValueState {
    /// The values at the start of a label.
    pub fn new() -> (v: LabelValueState)
        ensures
            v == no_values(),
    {
        LabelValueState {
            barcode: BarcodeDefaults { module_width: None, height: None },
            font: FontDefaults { font: None, height: None, width: None },
            field: FieldOrientationDefaults { orientation: None, justification: None },
            print_orientation: None,
            mirror_image: None,
            reverse_print: None,
        }
    }

    /// Updates the values from producer `code` (see [`spec_apply_producer`]).
    pub fn apply_producer(&mut self, code: &str, args: &[ArgSlot])
        ensures
            *final(self) == spec_apply_producer(*old(self), code@, args@),
    {
        if crate::text::str_eq(code, "^BY") {
            self.barcode.apply_by(args);
        } else if crate::text::str_eq(code, "^CF") {
            self.font.apply_cf(args);
        } else if crate::text::str_eq(code, "^FW") {
            self.field.apply_fw(args);
        } else if crate::text::str_eq(code, "^PO") {
            self.print_orientation = parse_char_arg(args, 0);
        } else if crate::text::str_eq(code, "^PM") {
            self.mirror_image = parse_char_arg(args, 0);
        } else if crate::text::str_eq(code, "^LR") {
            self.reverse_print = parse_char_arg(args, 0);
        }
    }

    /// The value a state key names (see [`spec_state_lookup`]).
    pub fn state_value_by_key(&self, key: &str) -> (r: StateValue)
        ensures
            state_value_view(r) == spec_state_lookup(*self, key@),
    {
        if is_float_state_key(key) {
            return StateValue::NotComputed;
        }
        match self.integer_value_by_key(key) {
            Some(t) => StateValue::Value(t),
            None => StateValue::Unset,
        }
    }

    /// The text of the value a key with a whole-number or character value
    /// names (see [`spec_state_value`]).
    fn integer_value_by_key(&self, key: &str) -> (r: Option<String>)
        ensures
            match r {
                Some(t) => spec_state_value(*self, key@) == Some(t@),
                None => spec_state_value(*self, key@) is None,
            },
    {
        if crate::text::str_eq(key, "barcode.moduleWidth") {
            decimal_text(self.barcode.module_width)
        } else if crate::text::str_eq(key, "barcode.height") {
            decimal_text(self.barcode.height)
        } else if crate::text::str_eq(key, "font.name") {
            char_text(self.font.font)
        } else if crate::text::str_eq(key, "font.height") {
            decimal_text(self.font.height)
        } else if crate::text::str_eq(key, "font.width") {
            decimal_text(self.font.width)
        } else if crate::text::str_eq(key, "field.orientation") {
            char_text(self.field.orientation)
        } else if crate::text::str_eq(key, "field.justification") {
            match self.field.justification {
                Some(j) => Some(crate::text::u64_to_decimal(j as u64)),
                None => None,
            }
        } else if crate::text::str_eq(key, "print.orientation") {
            char_text(self.print_orientation)
        } else if crate::text::str_eq(key, "print.mirror") {
            char_text(self.mirror_image)
        } else if crate::text::str_eq(key, "label.reversePrint") {
            char_text(self.reverse_print)
        } else {
            None
        }
    }
}

/// Applying the same `^MU` arguments twice has the effect of applying them
/// once.
pub proof fn law_apply_mu_idempotent(s: DeviceState, args: Seq<ArgSlot>)
    ensures
        spec_apply_mu(spec_apply_mu(s, args), args) == spec_apply_mu(s, args),
{
}

/// `^MU` changes only the units and the resolution: the session's producers
/// stay as they were.
pub proof fn law_apply_mu_keeps_producers(s: DeviceState, args: Seq<ArgSlot>)
    ensures
        spec_apply_mu(s, args).session_producers == s.session_producers,
{
}

pub proof fn lemma_decimal_digits(n: nat)
    ensures
        decimal(n).len() > 0,
        all_digits(decimal(n)),
        digits_value(decimal(n)) == n,
        decimal(n)[0] != '+',
    decreases n,
{
    if n >= 10 {
        lemma_decimal_digits(n / 10);
        let d = decimal(n);
        assert(d.drop_last() =~= decimal(n / 10));
        assert forall|i: int| 0 <= i < d.len() implies is_ascii_digit(#[trigger] d[i]) by {
            if i < d.len() - 1 {
                assert(d[i] == decimal(n / 10)[i]);
            }
        }
        assert(d[0] == decimal(n / 10)[0]);
        assert(d.last() == digit_char(n % 10));
        assert((digit_char(n % 10) as u32) == 48 + n % 10);
        assert(digits_value(d) == digits_value(decimal(n / 10)) * 10 + n % 10);
        assert(n == (n / 10) * 10 + n % 10) by (nonlinear_arith);
    } else {
        assert(decimal(n) =~= seq![digit_char(n)]);
        assert((digit_char(n) as u32) == 48 + n);
        assert(seq![digit_char(n)].drop_last() =~= Seq::<char>::empty());
        assert(digits_value(Seq::<char>::empty()) == 0);
        assert(digits_value(decimal(n)) == n);
    }
}

/// Reading back the decimal rendering of a number gives the number, when it
/// is within the type's range.
pub proof fn law_decimal_roundtrip(n: nat, max: nat)
    requires
        n <= max,
    ensures
        parse_unsigned(decimal(n), max) == Some(n),
{
    lemma_decimal_digits(n);
    assert(without_plus(decimal(n)) == decimal(n));
}

} // verus!
