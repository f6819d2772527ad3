//! Checks on the text of one argument against its spec: which of several
//! alternative specs applies, the length limits, and the printer
//! capabilities an enumerated value needs.

use crate::ast::ArgSlot;
use crate::context::{CommandCtx, ValidationContext};
use crate::constraints::opt_profile;
use crate::diag::{
    ctx_push, ctx_view, diags_view, push_diagnostic, spec_severity, DiagView, Diagnostic, SeverityRegistry,
    EXPECTED_CHAR, EXPECTED_INTEGER, EXPECTED_NUMERIC, INVALID_ENUM, PRINTER_GATE, STRING_TOO_LONG, STRING_TOO_SHORT,
};
use crate::predicates::{enum_contains, enum_value_of};
use crate::profile::{resolve_gate, spec_resolve_gate, Profile};
use crate::state::{all_digits, digits_value, is_ascii_digit, parse_unsigned, parse_unsigned_exec};
use crate::tables::{Arg, ArgUnion, EnumValue};
use crate::text::{append_str, chars_of, chars_skip, string_from_chars, decimal, msg3, owned, str_eq, u64_to_decimal, usize_to_decimal};
use vstd::prelude::*;
use vstd::string::*;
use vstd::utf8::*;

verus! {

broadcast use vstd::seq::group_seq_axioms;

// ---------------------------------------------------------------------------
// Number syntax
// ---------------------------------------------------------------------------

/// ASCII lower case of one character.
pub open spec fn lower(c: char) -> char {
    if 'A' <= c <= 'Z' {
        ((c as u32) + 32) as char
    } else {
        c
    }
}

/// `s` without one leading sign, if it has one.
pub open spec fn strip_sign(s: Seq<char>) -> Seq<char> {
    if s.len() > 0 && (s[0] == '+' || s[0] == '-') {
        s.drop_first()
    } else {
        s
    }
}

/// An exponent marker.
pub open spec fn is_e(c: char) -> bool {
    c == 'e' || c == 'E'
}

/// The number of `.` in `m`.
pub open spec fn dot_count(m: Seq<char>) -> nat
    decreases m.len(),
{
    if m.len() == 0 {
        0
    } else {
        dot_count(m.drop_last()) + if m.last() == '.' {
            1nat
        } else {
            0nat
        }
    }
}

/// Digits with at most one decimal point and at least one digit.
pub open spec fn valid_mantissa(m: Seq<char>) -> bool {
    &&& forall|i: int| 0 <= i < m.len() ==> is_ascii_digit(#[trigger] m[i]) || m[i] == '.'
    &&& dot_count(m) <= 1
    &&& m.len() > dot_count(m)
}

/// An optional sign followed by one or more digits.
pub open spec fn valid_exponent(e: Seq<char>) -> bool {
    strip_sign(e).len() > 0 && all_digits(strip_sign(e))
}

/// A decimal number: a mantissa, then optionally an exponent marker and an
/// exponent.
pub open spec fn number_syntax(b: Seq<char>) -> bool {
    ||| (forall|i: int| 0 <= i < b.len() ==> !is_e(#[trigger] b[i])) && valid_mantissa(b)
    ||| exists|k: int|
        0 <= k < b.len() && is_e(#[trigger] b[k]) && valid_mantissa(b.take(k)) && valid_exponent(b.skip(k + 1))
}

/// Whether `str::parse::<f64>` accepts `s`: as its documentation gives the
/// grammar, after an optional sign either `inf`, `infinity` or `nan` in any
/// letter case, or a decimal number.
pub open spec fn float_syntax(s: Seq<char>) -> bool {
    let b = strip_sign(s);
    let l = b.map_values(|c: char| lower(c));
    l == "inf"@ || l == "infinity"@ || l == "nan"@ || number_syntax(b)
}

/// Whether `cs[from..to]`, lowered, equals `word`.
fn lower_equals(cs: &Vec<char>, from: usize, word: &str) -> (r: bool)
    requires
        from <= cs@.len(),
    ensures
        r == (cs@.skip(from as int).map_values(|c: char| lower(c)) == word@),
{
    let w = chars_of(word);
    let ghost l = cs@.skip(from as int).map_values(|c: char| lower(c));
    let n = cs.len();
    if n - from != w.len() {
        return false;
    }
    let mut i: usize = 0;
    while i < w.len()
        invariant
            i <= w@.len(),
            n == cs@.len(),
            w@ == word@,
            from <= cs@.len(),
            l == cs@.skip(from as int).map_values(|c: char| lower(c)),
            cs@.len() - from == w@.len(),
            forall|j: int| 0 <= j < i ==> l[j] == w@[j],
        decreases w.len() - i,
    {
        let c = cs[from + i];
        let lc = if c >= 'A' && c <= 'Z' {
            ((c as u8) + 32) as char
        } else {
            c
        };
        assert(l[i as int] == lower(cs@[from + i]));
        if lc != w[i] {
            return false;
        }
        i = i + 1;
    }
    assert(l =~= w@);
    true
}

/// Whether `cs[a..b]` is a valid mantissa.
fn mantissa_ok(cs: &Vec<char>, a: usize, b: usize) -> (r: bool)
    requires
        a <= b <= cs@.len(),
    ensures
        r == valid_mantissa(cs@.subrange(a as int, b as int)),
{
    let ghost m = cs@.subrange(a as int, b as int);
    let mut dots: usize = 0;
    let mut i = a;
    while i < b
        invariant
            a <= i <= b <= cs@.len(),
            m == cs@.subrange(a as int, b as int),
            dots == dot_count(m.take(i - a)),
            dots <= i - a,
            forall|j: int| 0 <= j < i - a ==> is_ascii_digit(#[trigger] m[j]) || m[j] == '.',
        decreases b - i,
    {
        let c = cs[i];
        proof {
            assert(m.take(i - a + 1).drop_last() =~= m.take(i - a));
            assert(m[i - a] == c);
        }
        if c == '.' {
            dots = dots + 1;
        } else if !(c >= '0' && c <= '9') {
            return false;
        }
        i = i + 1;
    }
    assert(m.take(m.len() as int) =~= m);
    dots <= 1 && b - a > dots
}

/// Whether `cs[a..]` is a valid exponent.
fn exponent_ok(cs: &Vec<char>, a: usize) -> (r: bool)
    requires
        a <= cs@.len(),
    ensures
        r == valid_exponent(cs@.skip(a as int)),
{
    let ghost e = cs@.skip(a as int);
    let n = cs.len();
    let start = if a < n && (cs[a] == '+' || cs[a] == '-') {
        a + 1
    } else {
        a
    };
    assert(strip_sign(e) =~= cs@.skip(start as int));
    if start >= n {
        return false;
    }
    let mut i = start;
    while i < n
        invariant
            a <= start <= i <= n,
            n == cs@.len(),
            e == cs@.skip(a as int),
            strip_sign(e) == cs@.skip(start as int),
            forall|j: int| start <= j < i ==> is_ascii_digit(#[trigger] cs@[j]),
        decreases n - i,
    {
        if !(cs[i] >= '0' && cs[i] <= '9') {
            assert(!all_digits(strip_sign(e))) by {
                assert(strip_sign(e)[i - start] == cs@[i as int]);
            }
            return false;
        }
        i = i + 1;
    }
    assert(all_digits(strip_sign(e))) by {
        assert forall|j: int| 0 <= j < strip_sign(e).len() implies is_ascii_digit(#[trigger] strip_sign(e)[j]) by {
            assert(strip_sign(e)[j] == cs@[start + j]);
        }
    }
    true
}

/// Whether `str::parse::<f64>` accepts `s` (see [`float_syntax`]).
pub fn parses_as_number(s: &str) -> (r: bool)
    ensures
        r == float_syntax(s@),
{
    let cs = chars_of(s);
    let n = cs.len();
    let start: usize = if n > 0 && (cs[0] == '+' || cs[0] == '-') {
        1
    } else {
        0
    };
    let ghost b = strip_sign(s@);
    assert(b =~= cs@.skip(start as int));
    if lower_equals(&cs, start, "inf") || lower_equals(&cs, start, "infinity") || lower_equals(&cs, start, "nan") {
        return true;
    }
    let mut k = start;
    while k < n && !(cs[k] == 'e' || cs[k] == 'E')
        invariant
            start <= k <= n,
            n == cs@.len(),
            forall|j: int| start <= j < k ==> !is_e(#[trigger] cs@[j]),
        decreases n - k,
    {
        k = k + 1;
    }
    let kb = k - start;
    proof {
        assert(b.take(kb as int) =~= cs@.subrange(start as int, k as int));
        assert forall|j: int| 0 <= j < kb implies !is_e(#[trigger] b[j]) by {
            assert(b[j] == cs@[start + j]);
        }
    }
    if k == n {
        let r = mantissa_ok(&cs, start, n);
        proof {
            assert(b.take(b.len() as int) =~= b);
            if !r {
                assert forall|q: int| 0 <= q < b.len() && is_e(#[trigger] b[q]) implies !(valid_mantissa(b.take(q))
                    && valid_exponent(b.skip(q + 1))) by {
                    assert(b[q] == cs@[start + q]);
                }
            }
        }
        return r;
    }
    let m_ok = mantissa_ok(&cs, start, k);
    let e_ok = exponent_ok(&cs, k + 1);
    proof {
        assert(b[kb as int] == cs@[k as int]);
        assert(b.skip(kb + 1) =~= cs@.skip(k + 1));
        if !(m_ok && e_ok) {
            assert forall|q: int| 0 <= q < b.len() && is_e(#[trigger] b[q]) implies !(valid_mantissa(b.take(q))
                && valid_exponent(b.skip(q + 1))) by {
                if q < kb {
                    assert(b[q] == cs@[start + q]);
                } else if q > kb {
                    assert(b.take(q)[kb as int] == b[kb as int]);
                }
            }
        }
    }
    m_ok && e_ok
}

// ---------------------------------------------------------------------------
// Choosing the spec of an argument
// ---------------------------------------------------------------------------

/// The value of an argument slot, if any.
pub open spec fn slot_value(slot: Option<ArgSlot>) -> Option<Seq<char>> {
    match slot {
        Some(s) => match s.value {
            Some(v) => Some(v@),
            None => None,
        },
        None => None,
    }
}

/// An enumerated spec that accepts `v`.
pub open spec fn enum_arm_accepts(a: Arg, v: Seq<char>) -> bool {
    &&& a.arg_type@ == "enum"@
    &&& a.enum_values matches Some(ev) && exists|i: int|
        0 <= i < ev@.len() && enum_value_of(#[trigger] ev@[i]) == v
}

/// A numeric spec and a value that reads as a number.
pub open spec fn numeric_arm_accepts(a: Arg, v: Seq<char>) -> bool {
    (a.arg_type@ == "int"@ || a.arg_type@ == "float"@) && float_syntax(v)
}

/// The index of the first spec satisfying `f`, among `arms`.
pub open spec fn first_arm(arms: Seq<Arg>, f: spec_fn(Arg) -> bool) -> Option<int>
    decreases arms.len(),
{
    if arms.len() == 0 {
        None
    } else {
        match first_arm(arms.drop_last(), f) {
            Some(i) => Some(i),
            None => if f(arms.last()) {
                Some(arms.len() - 1)
            } else {
                None
            },
        }
    }
}

/// The spec that applies to an argument: a single spec; among alternatives,
/// the first enumerated one that accepts the value, else the first numeric
/// one when the value reads as a number, else the first.
pub open spec fn spec_select(u: ArgUnion, v: Option<Seq<char>>) -> Option<Arg> {
    match u {
        ArgUnion::Single(a) => Some(a),
        ArgUnion::OneOf { one_of } => {
            let arms = one_of@;
            let by_enum = match v {
                Some(x) => first_arm(arms, |a: Arg| enum_arm_accepts(a, x)),
                None => None,
            };
            let by_number = match v {
                Some(x) => first_arm(arms, |a: Arg| numeric_arm_accepts(a, x)),
                None => None,
            };
            if by_enum is Some {
                Some(arms[by_enum->0])
            } else if by_number is Some {
                Some(arms[by_number->0])
            } else if arms.len() > 0 {
                Some(arms[0])
            } else {
                None
            }
        },
    }
}

proof fn lemma_first_arm_prefix(arms: Seq<Arg>, f: spec_fn(Arg) -> bool, n: int)
    requires
        0 <= n <= arms.len(),
        forall|j: int| 0 <= j < n ==> !f(#[trigger] arms[j]),
    ensures
        first_arm(arms.take(n), f) is None,
    decreases n,
{
    if n > 0 {
        assert(arms.take(n).drop_last() =~= arms.take(n - 1));
        lemma_first_arm_prefix(arms, f, n - 1);
    }
}

proof fn lemma_first_arm_stable(arms: Seq<Arg>, f: spec_fn(Arg) -> bool, n: int)
    requires
        0 < n <= arms.len(),
        first_arm(arms.take(n), f) is Some,
    ensures
        first_arm(arms, f) == first_arm(arms.take(n), f),
    decreases arms.len() - n,
{
    if n < arms.len() {
        assert(arms.take(n + 1).drop_last() =~= arms.take(n));
        lemma_first_arm_stable(arms, f, n + 1);
    } else {
        assert(arms.take(n) =~= arms);
    }
}

/// The index of the first spec that accepts `v` as an enumerated value.
fn find_enum_arm(arms: &Vec<Arg>, v: &str) -> (r: Option<usize>)
    ensures
        match r {
            Some(i) => i < arms@.len() && first_arm(arms@, |a: Arg| enum_arm_accepts(a, v@)) == Some(i as int),
            None => first_arm(arms@, |a: Arg| enum_arm_accepts(a, v@)) is None,
        },
{
    let ghost f = |a: Arg| enum_arm_accepts(a, v@);
    let mut i: usize = 0;
    while i < arms.len()
        invariant
            i <= arms@.len(),
            f == (|a: Arg| enum_arm_accepts(a, v@)),
            forall|j: int| 0 <= j < i ==> !f(#[trigger] arms@[j]),
        decreases arms.len() - i,
    {
        let a = &arms[i];
        let ok = str_eq(a.arg_type.as_str(), "enum") && match &a.enum_values {
            Some(ev) => enum_contains(ev.as_slice(), v),
            None => false,
        };
        if ok {
            proof {
                lemma_first_arm_prefix(arms@, f, i as int);
                assert(arms@.take(i + 1).drop_last() =~= arms@.take(i as int));
                lemma_first_arm_stable(arms@, f, i + 1);
            }
            return Some(i);
        }
        i = i + 1;
    }
    proof {
        lemma_first_arm_prefix(arms@, f, arms@.len() as int);
        assert(arms@.take(arms@.len() as int) =~= arms@);
    }
    None
}

/// The index of the first numeric spec, when `v` reads as a number.
fn find_numeric_arm(arms: &Vec<Arg>, v: &str) -> (r: Option<usize>)
    ensures
        match r {
            Some(i) => i < arms@.len() && first_arm(arms@, |a: Arg| numeric_arm_accepts(a, v@)) == Some(i as int),
            None => first_arm(arms@, |a: Arg| numeric_arm_accepts(a, v@)) is None,
        },
{
    let ghost f = |a: Arg| numeric_arm_accepts(a, v@);
    let number = parses_as_number(v);
    let mut i: usize = 0;
    while i < arms.len()
        invariant
            i <= arms@.len(),
            number == float_syntax(v@),
            f == (|a: Arg| numeric_arm_accepts(a, v@)),
            forall|j: int| 0 <= j < i ==> !f(#[trigger] arms@[j]),
        decreases arms.len() - i,
    {
        let a = &arms[i];
        let ok = (str_eq(a.arg_type.as_str(), "int") || str_eq(a.arg_type.as_str(), "float")) && number;
        if ok {
            proof {
                lemma_first_arm_prefix(arms@, f, i as int);
                assert(arms@.take(i + 1).drop_last() =~= arms@.take(i as int));
                lemma_first_arm_stable(arms@, f, i + 1);
            }
            return Some(i);
        }
        i = i + 1;
    }
    proof {
        lemma_first_arm_prefix(arms@, f, arms@.len() as int);
        assert(arms@.take(arms@.len() as int) =~= arms@);
    }
    None
}

/// An optional spec by value.
pub open spec fn opt_arg(r: Option<&Arg>) -> Option<Arg> {
    match r {
        Some(a) => Some(*a),
        None => None,
    }
}

/// An optional slot by value.
pub open spec fn opt_slot(s: Option<&ArgSlot>) -> Option<ArgSlot> {
    match s {
        Some(x) => Some(*x),
        None => None,
    }
}

/// The spec that applies to an argument slot (see [`spec_select`]).
pub fn select_effective_arg<'a>(u: &'a ArgUnion, slot: Option<&ArgSlot>) -> (r: Option<&'a Arg>)
    ensures
        opt_arg(r) == spec_select(*u, slot_value(opt_slot(slot))),
{
    match u {
        ArgUnion::Single(a) => Some(a),
        ArgUnion::OneOf { one_of } => {
            let v: Option<&String> = match slot {
                Some(s) => match &s.value {
                    Some(v) => Some(v),
                    None => None,
                },
                None => None,
            };
            match v {
                Some(v) => {
                    match find_enum_arm(one_of, v.as_str()) {
                        Some(i) => {
                            return Some(&one_of[i]);
                        },
                        None => {},
                    }
                    match find_numeric_arm(one_of, v.as_str()) {
                        Some(i) => {
                            return Some(&one_of[i]);
                        },
                        None => {},
                    }
                },
                None => {},
            }
            if one_of.len() > 0 {
                Some(&one_of[0])
            } else {
                None
            }
        },
    }
}

// ---------------------------------------------------------------------------
// Length limits
// ---------------------------------------------------------------------------

/// The length of an argument's text as the length checks read it: its bytes,
/// taken as a `u32`.
pub open spec fn checked_len(val: Seq<char>) -> u32 {
    encode_utf8(val).len() as u32
}

/// The findings for an argument's text shorter than its minimum or longer
/// than its maximum length.
pub open spec fn spec_length_diags(
    reg: SeverityRegistry,
    ctx: CommandCtx,
    key: Seq<char>,
    val: Seq<char>,
    a: Arg,
) -> Seq<DiagView> {
    let actual = decimal(encode_utf8(val).len());
    (match a.min_length {
        Some(minl) => if checked_len(val) < minl {
            seq![
                (
                    STRING_TOO_SHORT@,
                    spec_severity(reg, STRING_TOO_SHORT@),
                    ctx.code@ + "."@ + key + " shorter than minLength "@ + decimal(minl as nat),
                    ctx.span,
                    Some(
                        seq![
                            ("actual_length"@, actual),
                            ("arg"@, key),
                            ("command"@, ctx.code@),
                            ("min_length"@, decimal(minl as nat)),
                            ("value"@, val),
                        ],
                    ),
                ),
            ]
        } else {
            seq![]
        },
        None => seq![],
    }) + (match a.max_length {
        Some(maxl) => if checked_len(val) > maxl {
            seq![
                (
                    STRING_TOO_LONG@,
                    spec_severity(reg, STRING_TOO_LONG@),
                    ctx.code@ + "."@ + key + " exceeds maxLength "@ + decimal(maxl as nat),
                    ctx.span,
                    Some(
                        seq![
                            ("actual_length"@, actual),
                            ("arg"@, key),
                            ("command"@, ctx.code@),
                            ("max_length"@, decimal(maxl as nat)),
                            ("value"@, val),
                        ],
                    ),
                ),
            ]
        } else {
            seq![]
        },
        None => seq![],
    })
}

fn length_diag(
    cmd_ctx: &CommandCtx,
    id: &str,
    severities: &SeverityRegistry,
    lookup_key: &str,
    val: &str,
    what: &str,
    limit_key: &str,
    limit: u32,
) -> (d: Diagnostic)
    ensures
        crate::diag::diag_view(d) == (
            id@,
            spec_severity(*severities, id@),
            cmd_ctx.code@ + "."@ + lookup_key@ + what@ + decimal(limit as nat),
            cmd_ctx.span,
            Some(
                seq![
                    ("actual_length"@, decimal(encode_utf8(val@).len())),
                    ("arg"@, lookup_key@),
                    ("command"@, cmd_ctx.code@),
                    (limit_key@, decimal(limit as nat)),
                    ("value"@, val@),
                ],
            ),
        ),
{
    let mut msg = msg3(cmd_ctx.code, ".", lookup_key);
    append_str(&mut msg, what);
    let lim = u64_to_decimal(limit as u64);
    append_str(&mut msg, lim.as_str());
    let len = val.as_bytes().len();
    let mut c: Vec<(String, String)> = Vec::new();
    ctx_push(&mut c, "actual_length", usize_to_decimal(len));
    ctx_push(&mut c, "arg", owned(lookup_key));
    ctx_push(&mut c, "command", owned(cmd_ctx.code));
    ctx_push(&mut c, limit_key, u64_to_decimal(limit as u64));
    ctx_push(&mut c, "value", owned(val));
    let ghost e = seq![
        ("actual_length"@, decimal(encode_utf8(val@).len())),
        ("arg"@, lookup_key@),
        ("command"@, cmd_ctx.code@),
        (limit_key@, decimal(limit as nat)),
        ("value"@, val@),
    ];
    assert(ctx_view(c@) =~= e);
    Diagnostic::new(id, severities.severity_of(id), msg, cmd_ctx.span).with_context(c)
}

/// Checks an argument's text against its minimum and maximum length.
pub fn validate_arg_length(
    cmd_ctx: &CommandCtx,
    severities: &SeverityRegistry,
    lookup_key: &str,
    val: &str,
    spec_arg: &Arg,
    issues: &mut Vec<Diagnostic>,
)
    ensures
        diags_view(final(issues)@) == diags_view(old(issues)@) + spec_length_diags(
            *severities,
            *cmd_ctx,
            lookup_key@,
            val@,
            *spec_arg,
        ),
{
    let ghost d0 = diags_view(issues@);
    let len = val.as_bytes().len() as u32;
    match spec_arg.min_length {
        Some(minl) => {
            if len < minl {
                let d = length_diag(
                    cmd_ctx,
                    STRING_TOO_SHORT,
                    severities,
                    lookup_key,
                    val,
                    " shorter than minLength ",
                    "min_length",
                    minl,
                );
                push_diagnostic(issues, d);
            }
        },
        None => {},
    }
    match spec_arg.max_length {
        Some(maxl) => {
            if len > maxl {
                let d = length_diag(
                    cmd_ctx,
                    STRING_TOO_LONG,
                    severities,
                    lookup_key,
                    val,
                    " exceeds maxLength ",
                    "max_length",
                    maxl,
                );
                push_diagnostic(issues, d);
            }
        },
        None => {},
    }
    assert(diags_view(issues@) =~= d0 + spec_length_diags(*severities, *cmd_ctx, lookup_key@, val@, *spec_arg));
}

// ---------------------------------------------------------------------------
// Printer capabilities of enumerated values
// ---------------------------------------------------------------------------

/// The finding for an enumerated value that needs a capability the
/// profile's features deny.
pub open spec fn enum_gate_diag(
    reg: SeverityRegistry,
    ctx: CommandCtx,
    key: Seq<char>,
    val: Seq<char>,
    gate: Seq<char>,
    pid: Seq<char>,
) -> DiagView {
    (
        PRINTER_GATE@,
        spec_severity(reg, PRINTER_GATE@),
        ctx.code@ + "."@ + key + "="@ + val + " requires '"@ + gate + "' capability not available in profile '"@ + pid
            + "'"@,
        ctx.span,
        Some(
            seq![
                ("arg"@, key),
                ("command"@, ctx.code@),
                ("gate"@, gate),
                ("level"@, "enum"@),
                ("profile"@, pid),
                ("value"@, val),
            ],
        ),
    )
}

/// The findings for gates `0..k` of one enumerated value.
pub open spec fn value_gate_diags(
    reg: SeverityRegistry,
    ctx: CommandCtx,
    key: Seq<char>,
    val: Seq<char>,
    gates: Seq<String>,
    k: int,
    p: Profile,
    fs: Seq<(String, bool)>,
) -> Seq<DiagView>
    decreases k,
{
    if k <= 0 {
        seq![]
    } else {
        value_gate_diags(reg, ctx, key, val, gates, k - 1, p, fs) + if spec_resolve_gate(fs, gates[k - 1]@) == Some(
            false,
        ) {
            seq![enum_gate_diag(reg, ctx, key, val, gates[k - 1]@, p.id@)]
        } else {
            seq![]
        }
    }
}

/// The findings of one entry of an enumeration: when it is the value given
/// and lists gates, each denied gate.
pub open spec fn entry_gate_diags(
    reg: SeverityRegistry,
    ctx: CommandCtx,
    key: Seq<char>,
    val: Seq<char>,
    ev: EnumValue,
    p: Profile,
    fs: Seq<(String, bool)>,
) -> Seq<DiagView> {
    match ev {
        EnumValue::Object { value, printer_gates } => if value@ == val && printer_gates is Some {
            value_gate_diags(reg, ctx, key, val, printer_gates->0@, printer_gates->0@.len() as int, p, fs)
        } else {
            seq![]
        },
        EnumValue::Simple(_) => seq![],
    }
}

/// The findings of entries `0..k` of an enumeration.
pub open spec fn entries_gate_diags(
    reg: SeverityRegistry,
    ctx: CommandCtx,
    key: Seq<char>,
    val: Seq<char>,
    evs: Seq<EnumValue>,
    k: int,
    p: Profile,
    fs: Seq<(String, bool)>,
) -> Seq<DiagView>
    decreases k,
{
    if k <= 0 {
        seq![]
    } else {
        entries_gate_diags(reg, ctx, key, val, evs, k - 1, p, fs) + entry_gate_diags(reg, ctx, key, val, evs[k - 1], p, fs)
    }
}

/// The printer-gate findings of an enumerated argument under a profile
/// with declared features.
pub open spec fn spec_enum_gate_diags(
    reg: SeverityRegistry,
    ctx: CommandCtx,
    profile: Option<Profile>,
    key: Seq<char>,
    val: Seq<char>,
    a: Arg,
) -> Seq<DiagView> {
    match (a.enum_values, profile) {
        (Some(evs), Some(p)) => match p.features {
            Some(fs) => entries_gate_diags(reg, ctx, key, val, evs@, evs@.len() as int, p, fs@),
            None => seq![],
        },
        _ => seq![],
    }
}

fn enum_gate_diagnostic(
    cmd_ctx: &CommandCtx,
    severities: &SeverityRegistry,
    lookup_key: &str,
    val: &str,
    gate: &str,
    pid: &str,
) -> (d: Diagnostic)
    ensures
        crate::diag::diag_view(d) == enum_gate_diag(*severities, *cmd_ctx, lookup_key@, val@, gate@, pid@),
{
    let mut msg = msg3(cmd_ctx.code, ".", lookup_key);
    append_str(&mut msg, "=");
    append_str(&mut msg, val);
    append_str(&mut msg, " requires '");
    append_str(&mut msg, gate);
    append_str(&mut msg, "' capability not available in profile '");
    append_str(&mut msg, pid);
    append_str(&mut msg, "'");
    let mut c: Vec<(String, String)> = Vec::new();
    ctx_push(&mut c, "arg", owned(lookup_key));
    ctx_push(&mut c, "command", owned(cmd_ctx.code));
    ctx_push(&mut c, "gate", owned(gate));
    ctx_push(&mut c, "level", owned("enum"));
    ctx_push(&mut c, "profile", owned(pid));
    ctx_push(&mut c, "value", owned(val));
    let ghost e = seq![
        ("arg"@, lookup_key@),
        ("command"@, cmd_ctx.code@),
        ("gate"@, gate@),
        ("level"@, "enum"@),
        ("profile"@, pid@),
        ("value"@, val@),
    ];
    assert(ctx_view(c@) =~= e);
    Diagnostic::new(PRINTER_GATE, severities.severity_of(PRINTER_GATE), msg, cmd_ctx.span).with_context(c)
}

/// Reports each capability that the given enumerated value needs and the
/// profile's features deny.
pub fn validate_arg_enum_gates(
    cmd_ctx: &CommandCtx,
    vctx: &ValidationContext,
    lookup_key: &str,
    val: &str,
    spec_arg: &Arg,
    issues: &mut Vec<Diagnostic>,
)
    ensures
        diags_view(final(issues)@) == diags_view(old(issues)@) + spec_enum_gate_diags(
            *vctx.severities,
            *cmd_ctx,
            opt_profile(vctx.profile),
            lookup_key@,
            val@,
            *spec_arg,
        ),
{
    let ghost d0 = diags_view(issues@);
    assert(d0 + seq![] =~= d0);
    let evs = match &spec_arg.enum_values {
        Some(e) => e,
        None => {
            return;
        },
    };
    let p = match vctx.profile {
        Some(p) => p,
        None => {
            return;
        },
    };
    let fs = match &p.features {
        Some(f) => f,
        None => {
            return;
        },
    };
    let ghost reg = *vctx.severities;
    let mut i: usize = 0;
    while i < evs.len()
        invariant
            i <= evs@.len(),
            reg == *vctx.severities,
            diags_view(issues@) == d0 + entries_gate_diags(reg, *cmd_ctx, lookup_key@, val@, evs@, i as int, *p, fs@),
        decreases evs.len() - i,
    {
        let ghost di = diags_view(issues@);
        match &evs[i] {
            EnumValue::Object { value, printer_gates } => {
                if str_eq(value.as_str(), val) {
                    match printer_gates {
                        Some(gates) => {
                            let mut j: usize = 0;
                            while j < gates.len()
                                invariant
                                    j <= gates@.len(),
                                    reg == *vctx.severities,
                                    diags_view(issues@) == di + value_gate_diags(
                                        reg,
                                        *cmd_ctx,
                                        lookup_key@,
                                        val@,
                                        gates@,
                                        j as int,
                                        *p,
                                        fs@,
                                    ),
                                decreases gates.len() - j,
                            {
                                let gate = &gates[j];
                                if resolve_gate(fs, &chars_of(gate.as_str())) == Some(false) {
                                    let d = enum_gate_diagnostic(
                                        cmd_ctx,
                                        vctx.severities,
                                        lookup_key,
                                        val,
                                        gate.as_str(),
                                        p.id.as_str(),
                                    );
                                    push_diagnostic(issues, d);
                                }
                                j = j + 1;
                                proof {
                                    assert(diags_view(issues@) =~= di + value_gate_diags(
                                        reg,
                                        *cmd_ctx,
                                        lookup_key@,
                                        val@,
                                        gates@,
                                        j as int,
                                        *p,
                                        fs@,
                                    ));
                                }
                            }
                        },
                        None => {},
                    }
                }
            },
            EnumValue::Simple(_) => {},
        }
        i = i + 1;
        proof {
            assert(diags_view(issues@) =~= d0 + entries_gate_diags(
                reg,
                *cmd_ctx,
                lookup_key@,
                val@,
                evs@,
                i as int,
                *p,
                fs@,
            ));
        }
    }
}

// ---------------------------------------------------------------------------
// The value of one argument
// ---------------------------------------------------------------------------

/// Whether `str::parse::<i64>` accepts `s`: an optional sign and one or
/// more digits, within the range of `i64`.
pub open spec fn i64_syntax(s: Seq<char>) -> bool {
    if s.len() > 0 && s[0] == '-' {
        let d = s.drop_first();
        d.len() > 0 && all_digits(d) && digits_value(d) <= 9223372036854775808
    } else {
        parse_unsigned(s, 9223372036854775807) is Some
    }
}

/// Whether `s` reads as an `i64` (see [`i64_syntax`]).
pub fn parses_as_i64(s: &str) -> (r: bool)
    ensures
        r == i64_syntax(s@),
{
    let cs = chars_of(s);
    if cs.len() > 0 && cs[0] == '-' {
        let rest = chars_skip(&cs, 1);
        if rest.len() == 0 || rest[0] == '+' {
            proof {
                if rest@.len() > 0 {
                    assert(!all_digits(rest@));
                }
            }
            return false;
        }
        let t = string_from_chars(&rest);
        let r = parse_unsigned_exec(t.as_str(), 9223372036854775808u64).is_some();
        proof {
            assert(rest@ =~= s@.drop_first());
            assert(crate::state::without_plus(rest@) == rest@);
        }
        r
    } else {
        parse_unsigned_exec(s, 9223372036854775807u64).is_some()
    }
}

/// Whether an argument's text fits its type: an integer, a number or one
/// character; enumerations and other types are not held back here.
pub open spec fn type_ok(a: Arg, val: Seq<char>) -> bool {
    if a.arg_type@ == "int"@ {
        i64_syntax(val)
    } else if a.arg_type@ == "float"@ {
        float_syntax(val)
    } else if a.arg_type@ == "char"@ {
        val.len() == 1
    } else {
        true
    }
}

/// A finding about an argument's value, with the argument, command and
/// value as context.
pub open spec fn value_diag(
    reg: SeverityRegistry,
    ctx: CommandCtx,
    id: Seq<char>,
    message: Seq<char>,
    key: Seq<char>,
    val: Seq<char>,
) -> DiagView {
    (id, spec_severity(reg, id), message, ctx.span, Some(seq![("arg"@, key), ("command"@, ctx.code@), ("value"@, val)]))
}

/// The type finding for an argument's text.
pub open spec fn spec_type_diags(reg: SeverityRegistry, ctx: CommandCtx, key: Seq<char>, val: Seq<char>, a: Arg) -> Seq<
    DiagView,
> {
    let head = ctx.code@ + "."@ + key;
    if a.arg_type@ == "enum"@ {
        match a.enum_values {
            Some(ev) => if !(exists|i: int| 0 <= i < ev@.len() && enum_value_of(#[trigger] ev@[i]) == val) {
                seq![value_diag(reg, ctx, INVALID_ENUM@, head + " invalid enum"@, key, val)]
            } else {
                seq![]
            },
            None => seq![],
        }
    } else if a.arg_type@ == "int"@ && !i64_syntax(val) {
        seq![
            value_diag(
                reg,
                ctx,
                EXPECTED_INTEGER@,
                head + " expected integer, got \""@ + val + "\""@,
                key,
                val,
            ),
        ]
    } else if a.arg_type@ == "float"@ && !float_syntax(val) {
        seq![
            value_diag(
                reg,
                ctx,
                EXPECTED_NUMERIC@,
                head + " expected number, got \""@ + val + "\""@,
                key,
                val,
            ),
        ]
    } else if a.arg_type@ == "char"@ && val.len() != 1 {
        seq![
            value_diag(
                reg,
                ctx,
                EXPECTED_CHAR@,
                head + " expected single character, got \""@ + val + "\""@,
                key,
                val,
            ),
        ]
    } else {
        seq![]
    }
}

/// The findings for one argument's value: its type, then, when the type
/// fits, its length and the printer capabilities of an enumerated value.
pub open spec fn spec_value_diags(
    reg: SeverityRegistry,
    ctx: CommandCtx,
    profile: Option<Profile>,
    key: Seq<char>,
    val: Seq<char>,
    a: Arg,
) -> Seq<DiagView> {
    spec_type_diags(reg, ctx, key, val, a) + if type_ok(a, val) {
        spec_length_diags(reg, ctx, key, val, a) + spec_enum_gate_diags(reg, ctx, profile, key, val, a)
    } else {
        seq![]
    }
}

fn value_diagnostic(
    cmd_ctx: &CommandCtx,
    severities: &SeverityRegistry,
    id: &str,
    lookup_key: &str,
    what: &str,
    quoted: bool,
    val: &str,
) -> (d: Diagnostic)
    ensures
        crate::diag::diag_view(d) == value_diag(
            *severities,
            *cmd_ctx,
            id@,
            if quoted {
                cmd_ctx.code@ + "."@ + lookup_key@ + what@ + val@ + "\""@
            } else {
                cmd_ctx.code@ + "."@ + lookup_key@ + what@
            },
            lookup_key@,
            val@,
        ),
{
    let mut msg = msg3(cmd_ctx.code, ".", lookup_key);
    append_str(&mut msg, what);
    if quoted {
        append_str(&mut msg, val);
        append_str(&mut msg, "\"");
    }
    proof {
        if !quoted {
            assert(msg@ =~= cmd_ctx.code@ + "."@ + lookup_key@ + what@);
        }
    }
    let d = crate::diag::diag3(
        id,
        severities.severity_of(id),
        msg,
        cmd_ctx.span,
        "arg",
        owned(lookup_key),
        "command",
        owned(cmd_ctx.code),
        "value",
        owned(val),
    );
    d
}

/// Checks one argument's value: that it fits its type (an enumeration
/// member, an integer, a number, one character), then its length and the
/// printer capabilities an enumerated value needs. Numeric ranges, rounding
/// and profile limits compare floating-point values and are not checked
/// here.
pub fn validate_arg_value(
    cmd_ctx: &CommandCtx,
    vctx: &ValidationContext,
    lookup_key: &str,
    val: &str,
    spec_arg: &Arg,
    issues: &mut Vec<Diagnostic>,
)
    ensures
        diags_view(final(issues)@) == diags_view(old(issues)@) + spec_value_diags(
            *vctx.severities,
            *cmd_ctx,
            opt_profile(vctx.profile),
            lookup_key@,
            val@,
            *spec_arg,
        ),
{
    let ghost d0 = diags_view(issues@);
    let reg = vctx.severities;
    let t = spec_arg.arg_type.as_str();
    proof {
        reveal_strlit("enum");
        reveal_strlit("int");
        reveal_strlit("float");
        reveal_strlit("char");
        assert("enum"@[0] != "char"@[0]);
        assert("enum"@.len() == 4 && "int"@.len() == 3 && "float"@.len() == 5 && "char"@.len() == 4);
    }
    let ghost td = spec_type_diags(*reg, *cmd_ctx, lookup_key@, val@, *spec_arg);
    let type_valid = if str_eq(t, "enum") {
        match &spec_arg.enum_values {
            Some(ev) => {
                if !enum_contains(ev.as_slice(), val) {
                    let d = value_diagnostic(cmd_ctx, reg, INVALID_ENUM, lookup_key, " invalid enum", false, val);
                    push_diagnostic(issues, d);
                    assert(diags_view(issues@) =~= d0 + td);
                } else {
                    assert(diags_view(issues@) =~= d0 + td);
                }
            },
            None => {
                assert(diags_view(issues@) =~= d0 + td);
            },
        }
        true
    } else if str_eq(t, "int") {
        let ok = parses_as_i64(val);
        if !ok {
            let d = value_diagnostic(cmd_ctx, reg, EXPECTED_INTEGER, lookup_key, " expected integer, got \"", true, val);
            push_diagnostic(issues, d);
            assert(diags_view(issues@) =~= d0 + td);
        } else {
            assert(diags_view(issues@) =~= d0 + td);
        }
        ok
    } else if str_eq(t, "float") {
        let ok = parses_as_number(val);
        if !ok {
            let d = value_diagnostic(cmd_ctx, reg, EXPECTED_NUMERIC, lookup_key, " expected number, got \"", true, val);
            push_diagnostic(issues, d);
            assert(diags_view(issues@) =~= d0 + td);
        } else {
            assert(diags_view(issues@) =~= d0 + td);
        }
        ok
    } else if str_eq(t, "char") {
        let ok = chars_of(val).len() == 1;
        if !ok {
            let d = value_diagnostic(
                cmd_ctx,
                reg,
                EXPECTED_CHAR,
                lookup_key,
                " expected single character, got \"",
                true,
                val,
            );
            push_diagnostic(issues, d);
            assert(diags_view(issues@) =~= d0 + td);
        } else {
            assert(diags_view(issues@) =~= d0 + td);
        }
        ok
    } else {
        assert(diags_view(issues@) =~= d0 + td);
        true
    };
    proof {
        assert(type_valid == type_ok(*spec_arg, val@));
        assert(diags_view(issues@) =~= d0 + spec_type_diags(*reg, *cmd_ctx, lookup_key@, val@, *spec_arg));
    }
    if !type_valid {
        assert(diags_view(issues@) =~= d0 + spec_value_diags(
            *reg,
            *cmd_ctx,
            opt_profile(vctx.profile),
            lookup_key@,
            val@,
            *spec_arg,
        ));
        return;
    }
    let ghost d1 = diags_view(issues@);
    validate_arg_length(cmd_ctx, reg, lookup_key, val, spec_arg, issues);
    validate_arg_enum_gates(cmd_ctx, vctx, lookup_key, val, spec_arg, issues);
    assert(diags_view(issues@) =~= d0 + spec_value_diags(
        *reg,
        *cmd_ctx,
        opt_profile(vctx.profile),
        lookup_key@,
        val@,
        *spec_arg,
    ));
}

} // verus!
