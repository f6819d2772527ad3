//! Barcode field data checks: the character set and the length rules a
//! barcode's specification gives its data.

use crate::diag::{
    diag3, diag4, diag_view, diags_view, push_diagnostic, DiagView, Diagnostic, Severity, Span,
    BARCODE_DATA_LENGTH, BARCODE_INVALID_CHAR,
};
use crate::tables::{ConstraintSeverity, FieldDataRules};
use crate::text::{append_str, chars_of, decimal, join, owned, push_char, str_eq, usize_to_decimal};
use vstd::prelude::*;
use vstd::string::*;

verus! {

broadcast use vstd::seq::group_seq_axioms;

/// Whether `ch` is in the compact character set `b` read from byte `i` on:
/// `\x` is the literal `x`; `X-Y` (with `Y` not a backslash) is the range
/// between `X` and `Y` in either order; any other byte is itself.
pub open spec fn in_set_from(ch: char, b: Seq<u8>, i: int) -> bool
    decreases b.len() - i,
{
    if i < 0 || i >= b.len() {
        false
    } else if b[i] == 92 && i + 1 < b.len() {
        ch == (b[i + 1] as char) || in_set_from(ch, b, i + 2)
    } else if i + 2 < b.len() && b[i + 1] == 45 && b[i + 2] != 92 {
        let lo = b[i] as char;
        let hi = b[i + 2] as char;
        (if lo <= hi {
            lo <= ch <= hi
        } else {
            hi <= ch <= lo
        }) || in_set_from(ch, b, i + 3)
    } else {
        ch == (b[i] as char) || in_set_from(ch, b, i + 1)
    }
}

/// Whether `ch` is in the character set `charset` (see [`in_set_from`]).
pub open spec fn spec_char_in_set(ch: char, charset: Seq<u8>) -> bool {
    in_set_from(ch, charset, 0)
}

/// Whether `ch` is in a compact character set such as `A-Z0-9\-`.
pub fn char_in_set(ch: char, charset: &str) -> (r: bool)
    ensures
        r == spec_char_in_set(ch, charset.spec_bytes()),
{
    let b = charset.as_bytes();
    let mut i: usize = 0;
    while i < b.len()
        invariant
            b@ == charset.spec_bytes(),
            in_set_from(ch, b@, 0) == in_set_from(ch, b@, i as int),
        decreases b.len() - i,
    {
        if b[i] == 92u8 && i + 1 < b.len() {
            if ch == b[i + 1] as char {
                return true;
            }
            i = i + 2;
        } else if b.len() - i > 2 && b[i + 1] == 45u8 && b[i + 2] != 92u8 {
            let lo = b[i] as char;
            let hi = b[i + 2] as char;
            let (a, z) = if lo <= hi {
                (lo, hi)
            } else {
                (hi, lo)
            };
            if ch >= a && ch <= z {
                return true;
            }
            i = i + 3;
        } else {
            if ch == b[i] as char {
                return true;
            }
            i = i + 1;
        }
    }
    false
}

/// The severity a declared constraint severity stands for.
pub open spec fn sev_of(s: ConstraintSeverity) -> Severity {
    match s {
        ConstraintSeverity::Error => Severity::Error,
        ConstraintSeverity::Warn => Severity::Warn,
        ConstraintSeverity::Info => Severity::Info,
    }
}

/// The severity a declared constraint severity stands for.
pub fn map_constraint_sev(s: ConstraintSeverity) -> (r: Severity)
    ensures
        r == sev_of(s),
{
    match s {
        ConstraintSeverity::Error => Severity::Error,
        ConstraintSeverity::Warn => Severity::Warn,
        ConstraintSeverity::Info => Severity::Info,
    }
}

/// The first position at or after `i` whose character is outside the set.
pub open spec fn first_invalid_from(s: Seq<char>, cs: Seq<u8>, i: int) -> Option<int>
    decreases s.len() - i,
{
    if i < 0 || i >= s.len() {
        None
    } else if !spec_char_in_set(s[i], cs) {
        Some(i)
    } else {
        first_invalid_from(s, cs, i + 1)
    }
}

/// The character-set finding for barcode data: the first character outside
/// the set, reported once.
pub open spec fn charset_diags(code: Seq<char>, data: Seq<char>, rules: FieldDataRules, dspan: Option<Span>) -> Seq<DiagView> {
    match rules.character_set {
        Some(cs) => match first_invalid_from(data, vstd::utf8::encode_utf8(cs@), 0) {
            Some(i) => seq![
                (
                    BARCODE_INVALID_CHAR@,
                    sev_of(
                        match rules.character_set_severity {
                            Some(s) => s,
                            None => ConstraintSeverity::Error,
                        },
                    ),
                    "invalid character '"@ + seq![data[i]] + "' at position "@ + decimal(i as nat) + " in "@ + code
                        + " field data (allowed: ["@ + cs@ + "])"@,
                    dspan,
                    Some(
                        seq![
                            ("allowedSet"@, cs@),
                            ("character"@, seq![data[i]]),
                            ("command"@, code),
                            ("position"@, decimal(i as nat)),
                        ],
                    ),
                ),
            ],
            None => seq![],
        },
        None => seq![],
    }
}

/// The severity of length findings.
pub open spec fn length_sev(rules: FieldDataRules) -> Severity {
    sev_of(
        match rules.length_severity {
            Some(s) => s,
            None => ConstraintSeverity::Warn,
        },
    )
}

/// The decimal renderings of a list of lengths.
pub open spec fn decimals(v: Seq<usize>) -> Seq<Seq<char>> {
    v.map_values(|x: usize| decimal(x as nat))
}

/// The length findings for barcode data of `len` characters: allowed
/// lengths first; else an exact length; else a minimum and a maximum.
pub open spec fn length_diags(code: Seq<char>, len: nat, rules: FieldDataRules, dspan: Option<Span>) -> Seq<DiagView> {
    let sev = length_sev(rules);
    let actual = decimal(len);
    match rules.allowed_lengths {
        Some(allowed) => if allowed@.contains(len as usize) {
            seq![]
        } else {
            let expected = join(decimals(allowed@), ", "@);
            seq![
                (
                    BARCODE_DATA_LENGTH@,
                    sev,
                    code + " field data length "@ + actual + " (expected one of ["@ + expected + "])"@,
                    dspan,
                    Some(seq![("actual"@, actual), ("command"@, code), ("expected"@, expected)]),
                ),
            ]
        },
        None => match rules.exact_length {
            Some(exact) => if len == exact {
                seq![]
            } else {
                seq![
                    (
                        BARCODE_DATA_LENGTH@,
                        sev,
                        code + " field data length "@ + actual + " (expected exactly "@ + decimal(exact as nat) + ")"@,
                        dspan,
                        Some(
                            seq![
                                ("actual"@, actual),
                                ("command"@, code),
                                ("expected"@, decimal(exact as nat)),
                            ],
                        ),
                    ),
                ]
            },
            None => {
                let too_short: Seq<DiagView> = match rules.min_length {
                    Some(min) => if len < min {
                        seq![
                            (
                                BARCODE_DATA_LENGTH@,
                                sev,
                                code + " field data too short: "@ + actual + " chars (minimum "@ + decimal(
                                    min as nat,
                                ) + ")"@,
                                dspan,
                                Some(
                                    seq![
                                        ("actual"@, actual),
                                        ("command"@, code),
                                        ("min"@, decimal(min as nat)),
                                    ],
                                ),
                            ),
                        ]
                    } else {
                        seq![]
                    },
                    None => seq![],
                };
                let too_long: Seq<DiagView> = match rules.max_length {
                    Some(max) => if len > max {
                        seq![
                            (
                                BARCODE_DATA_LENGTH@,
                                sev,
                                code + " field data too long: "@ + actual + " chars (maximum "@ + decimal(
                                    max as nat,
                                ) + ")"@,
                                dspan,
                                Some(
                                    seq![
                                        ("actual"@, actual),
                                        ("command"@, code),
                                        ("max"@, decimal(max as nat)),
                                    ],
                                ),
                            ),
                        ]
                    } else {
                        seq![]
                    },
                    None => seq![],
                };
                too_short + too_long
            },
        },
    }
}

/// The parity finding: a declared parity of `even` or `odd` that the
/// length does not have.
pub open spec fn parity_diags(code: Seq<char>, len: nat, rules: FieldDataRules, dspan: Option<Span>) -> Seq<DiagView> {
    match rules.length_parity {
        Some(p) => {
            let even = len % 2 == 0;
            let valid = if p@ == "even"@ {
                even
            } else if p@ == "odd"@ {
                !even
            } else {
                true
            };
            if valid {
                seq![]
            } else {
                let actual_parity = if even {
                    "even"@
                } else {
                    "odd"@
                };
                seq![
                    (
                        BARCODE_DATA_LENGTH@,
                        length_sev(rules),
                        code + " field data length "@ + decimal(len) + " should be "@ + p@ + " (got "@
                            + actual_parity + ")"@,
                        dspan,
                        Some(
                            seq![
                                ("actual"@, decimal(len)),
                                ("actualParity"@, actual_parity),
                                ("command"@, code),
                                ("parity"@, p@),
                            ],
                        ),
                    ),
                ]
            }
        },
        None => seq![],
    }
}

/// Every finding for barcode data: character set, then length, then parity.
pub open spec fn spec_barcode_diags(code: Seq<char>, data: Seq<char>, rules: FieldDataRules, dspan: Option<Span>) -> Seq<DiagView> {
    charset_diags(code, data, rules, dspan) + length_diags(code, data.len(), rules, dspan) + parity_diags(
        code,
        data.len(),
        rules,
        dspan,
    )
}

fn check_charset(code: &str, data: &Vec<char>, rules: &FieldDataRules, dspan: Option<Span>, issues: &mut Vec<Diagnostic>)
    ensures
        diags_view(final(issues)@) == diags_view(old(issues)@) + charset_diags(code@, data@, *rules, dspan),
{
    let cs = match &rules.character_set {
        Some(cs) => cs,
        None => {
            assert(diags_view(issues@) =~= diags_view(old(issues)@) + seq![]);
            return;
        },
    };
    let mut i: usize = 0;
    while i < data.len()
        invariant
            i <= data.len(),
            issues@ == old(issues)@,
            rules.character_set == Some(*cs),
            first_invalid_from(data@, vstd::utf8::encode_utf8(cs@), 0) == first_invalid_from(
                data@,
                vstd::utf8::encode_utf8(cs@),
                i as int,
            ),
        decreases data.len() - i,
    {
        let ch = data[i];
        if !char_in_set(ch, cs.as_str()) {
            let position = usize_to_decimal(i);
            let mut msg = owned("invalid character '");
            push_char(&mut msg, ch);
            append_str(&mut msg, "' at position ");
            append_str(&mut msg, position.as_str());
            append_str(&mut msg, " in ");
            append_str(&mut msg, code);
            append_str(&mut msg, " field data (allowed: [");
            append_str(&mut msg, cs.as_str());
            append_str(&mut msg, "])");
            let ghost m = msg@;
            assert(m =~= "invalid character '"@ + seq![data@[i as int]] + "' at position "@ + decimal(i as nat) + " in "@
                + code@ + " field data (allowed: ["@ + cs@ + "])"@);
            let mut chs = String::new();
            push_char(&mut chs, ch);
            assert(chs@ =~= seq![data@[i as int]]);
            let sev = match rules.character_set_severity {
                Some(s) => map_constraint_sev(s),
                None => Severity::Error,
            };
            let d = diag4(
                BARCODE_INVALID_CHAR,
                sev,
                msg,
                dspan,
                "allowedSet",
                owned(cs.as_str()),
                "character",
                chs,
                "command",
                owned(code),
                "position",
                position,
            );
            push_diagnostic(issues, d);
            assert(diags_view(issues@) =~= diags_view(old(issues)@) + charset_diags(code@, data@, *rules, dspan));
            return;
        }
        i = i + 1;
    }
    assert(diags_view(issues@) =~= diags_view(old(issues)@) + seq![]);
}

fn expected_list(allowed: &Vec<usize>) -> (r: String)
    ensures
        r@ == join(decimals(allowed@), ", "@),
{
    let mut expected = String::new();
    let mut j: usize = 0;
    while j < allowed.len()
        invariant
            j <= allowed.len(),
            expected@ == join(decimals(allowed@.take(j as int)), ", "@),
        decreases allowed.len() - j,
    {
        proof {
            assert(decimals(allowed@.take(j + 1)).drop_last() =~= decimals(allowed@.take(j as int)));
            assert(decimals(allowed@.take(j + 1)).last() == decimal(allowed@[j as int] as nat));
            if j == 0 {
                assert(decimals(allowed@.take(1)) =~= seq![decimal(allowed@[0] as nat)]);
                assert(decimals(allowed@.take(0)) =~= Seq::<Seq<char>>::empty());
            }
        }
        let ghost before = expected@;
        if j > 0 {
            append_str(&mut expected, ", ");
        }
        let dv = usize_to_decimal(allowed[j]);
        append_str(&mut expected, dv.as_str());
        proof {
            if j == 0 {
                assert(before =~= Seq::<char>::empty());
                assert(expected@ =~= decimal(allowed@[0] as nat));
            }
        }
        j = j + 1;
    }
    assert(allowed@.take(allowed.len() as int) =~= allowed@);
    expected
}

fn allowed_contains(allowed: &Vec<usize>, len: usize) -> (r: bool)
    ensures
        r == allowed@.contains(len),
{
    let mut k: usize = 0;
    while k < allowed.len()
        invariant
            k <= allowed.len(),
            forall|m: int| 0 <= m < k ==> allowed@[m] != len,
        decreases allowed.len() - k,
    {
        if allowed[k] == len {
            assert(allowed@[k as int] == len);
            return true;
        }
        k = k + 1;
    }
    false
}

fn check_length(code: &str, len: usize, rules: &FieldDataRules, dspan: Option<Span>, issues: &mut Vec<Diagnostic>)
    ensures
        diags_view(final(issues)@) == diags_view(old(issues)@) + length_diags(code@, len as nat, *rules, dspan),
{
    let sev = match rules.length_severity {
        Some(s) => map_constraint_sev(s),
        None => Severity::Warn,
    };
    assert(sev == length_sev(*rules));
    let ghost old_v = diags_view(issues@);
    if let Some(allowed) = &rules.allowed_lengths {
        if !allowed_contains(allowed, len) {
            let expected = expected_list(allowed);
            let actual = usize_to_decimal(len);
            let mut msg = owned(code);
            append_str(&mut msg, " field data length ");
            append_str(&mut msg, actual.as_str());
            append_str(&mut msg, " (expected one of [");
            append_str(&mut msg, expected.as_str());
            append_str(&mut msg, "])");
            let d = diag3(BARCODE_DATA_LENGTH, sev, msg, dspan, "actual", actual, "command", owned(code), "expected", expected);
            push_diagnostic(issues, d);
            assert(diags_view(issues@) =~= old_v + length_diags(code@, len as nat, *rules, dspan));
        } else {
            assert(diags_view(issues@) =~= old_v + length_diags(code@, len as nat, *rules, dspan));
        }
        return;
    }
    if let Some(exact) = rules.exact_length {
        if len != exact {
            let actual = usize_to_decimal(len);
            let expected = usize_to_decimal(exact);
            let mut msg = owned(code);
            append_str(&mut msg, " field data length ");
            append_str(&mut msg, actual.as_str());
            append_str(&mut msg, " (expected exactly ");
            append_str(&mut msg, expected.as_str());
            append_str(&mut msg, ")");
            let d = diag3(BARCODE_DATA_LENGTH, sev, msg, dspan, "actual", actual, "command", owned(code), "expected", expected);
            push_diagnostic(issues, d);
        }
        assert(diags_view(issues@) =~= old_v + length_diags(code@, len as nat, *rules, dspan));
        return;
    }
    if let Some(min) = rules.min_length {
        if len < min {
            let actual = usize_to_decimal(len);
            let m = usize_to_decimal(min);
            let mut msg = owned(code);
            append_str(&mut msg, " field data too short: ");
            append_str(&mut msg, actual.as_str());
            append_str(&mut msg, " chars (minimum ");
            append_str(&mut msg, m.as_str());
            append_str(&mut msg, ")");
            let d = diag3(BARCODE_DATA_LENGTH, sev, msg, dspan, "actual", actual, "command", owned(code), "min", m);
            push_diagnostic(issues, d);
        }
    }
    let ghost after_min = diags_view(issues@);
    if let Some(max) = rules.max_length {
        if len > max {
            let actual = usize_to_decimal(len);
            let m = usize_to_decimal(max);
            let mut msg = owned(code);
            append_str(&mut msg, " field data too long: ");
            append_str(&mut msg, actual.as_str());
            append_str(&mut msg, " chars (maximum ");
            append_str(&mut msg, m.as_str());
            append_str(&mut msg, ")");
            let d = diag3(BARCODE_DATA_LENGTH, sev, msg, dspan, "actual", actual, "command", owned(code), "max", m);
            push_diagnostic(issues, d);
        }
    }
    assert(diags_view(issues@) =~= old_v + length_diags(code@, len as nat, *rules, dspan));
}

fn check_parity(code: &str, len: usize, rules: &FieldDataRules, dspan: Option<Span>, issues: &mut Vec<Diagnostic>)
    ensures
        diags_view(final(issues)@) == diags_view(old(issues)@) + parity_diags(code@, len as nat, *rules, dspan),
{
    let ghost old_v = diags_view(issues@);
    if let Some(p) = &rules.length_parity {
        let even = len % 2 == 0;
        let valid = if str_eq(p.as_str(), "even") {
            even
        } else if str_eq(p.as_str(), "odd") {
            !even
        } else {
            true
        };
        if !valid {
            let actual = usize_to_decimal(len);
            let actual_parity = if even {
                owned("even")
            } else {
                owned("odd")
            };
            let mut msg = owned(code);
            append_str(&mut msg, " field data length ");
            append_str(&mut msg, actual.as_str());
            append_str(&mut msg, " should be ");
            append_str(&mut msg, p.as_str());
            append_str(&mut msg, " (got ");
            append_str(&mut msg, actual_parity.as_str());
            append_str(&mut msg, ")");
            let sev = match rules.length_severity {
                Some(s) => map_constraint_sev(s),
                None => Severity::Warn,
            };
            let d = diag4(
                BARCODE_DATA_LENGTH,
                sev,
                msg,
                dspan,
                "actual",
                actual,
                "actualParity",
                actual_parity,
                "command",
                owned(code),
                "parity",
                owned(p.as_str()),
            );
            push_diagnostic(issues, d);
        }
    }
    assert(diags_view(issues@) =~= old_v + parity_diags(code@, len as nat, *rules, dspan));
}

/// Checks barcode field data against the barcode's field data rules: the
/// first character outside the character set, the length (allowed lengths,
/// else exact, else minimum and maximum) and the length parity.
pub fn validate_barcode_field_data(
    barcode_code: &str,
    fd_content: &str,
    rules: &FieldDataRules,
    dspan: Option<Span>,
    issues: &mut Vec<Diagnostic>,
)
    ensures
        diags_view(final(issues)@) == diags_view(old(issues)@) + spec_barcode_diags(
            barcode_code@,
            fd_content@,
            *rules,
            dspan,
        ),
{
    let data = chars_of(fd_content);
    let ghost v0 = diags_view(issues@);
    check_charset(barcode_code, &data, rules, dspan, issues);
    let ghost v1 = diags_view(issues@);
    check_length(barcode_code, data.len(), rules, dspan, issues);
    let ghost v2 = diags_view(issues@);
    check_parity(barcode_code, data.len(), rules, dspan, issues);
    assert(diags_view(issues@) =~= v0 + spec_barcode_diags(barcode_code@, fd_content@, *rules, dspan));
}

/// A declared length parity is checked as declared: with `odd` the data
/// gets a parity finding exactly when its length is even, with `even`
/// exactly when its length is odd, and with no parity (or another word)
/// never. The finding is the last of the barcode's findings, names the
/// parity the length has, and is the only parity finding.
pub proof fn law_parity_finding_iff_wrong_parity(
    code: Seq<char>,
    data: Seq<char>,
    rules: FieldDataRules,
    dspan: Option<Span>,
)
    ensures
        ({
            let wrong = match rules.length_parity {
                Some(p) => (p@ == "odd"@ && data.len() % 2 == 0) || (p@ == "even"@ && data.len() % 2 == 1),
                None => false,
            };
            let all = spec_barcode_diags(code, data, rules, dspan);
            let before = charset_diags(code, data, rules, dspan) + length_diags(code, data.len(), rules, dspan);
            &&& all.len() == before.len() + (if wrong {
                1int
            } else {
                0int
            })
            &&& all.subrange(0, before.len() as int) == before
            &&& wrong ==> (all.last().4 matches Some(ctx) && ctx[1] == ("actualParity"@, if data.len() % 2
                == 0 {
                "even"@
            } else {
                "odd"@
            }))
        }),
{
    reveal_strlit("odd");
    reveal_strlit("even");
    assert("odd"@[0] != "even"@[0]);
    let all = spec_barcode_diags(code, data, rules, dspan);
    let before = charset_diags(code, data, rules, dspan) + length_diags(code, data.len(), rules, dspan);
    assert(all.subrange(0, before.len() as int) =~= before);
}

/// The length rules are checked as declared: with allowed lengths, one
/// finding exactly when the length is not among them; else, with an exact
/// length, one finding exactly when the length differs from it; else one
/// finding for a length under the minimum and one for a length over the
/// maximum.
pub proof fn law_length_findings(code: Seq<char>, len: nat, rules: FieldDataRules, dspan: Option<Span>)
    ensures
        length_diags(code, len, rules, dspan).len() == match rules.allowed_lengths {
            Some(allowed) => if allowed@.contains(len as usize) {
                0int
            } else {
                1int
            },
            None => match rules.exact_length {
                Some(exact) => if len == exact {
                    0int
                } else {
                    1int
                },
                None => (if rules.min_length matches Some(m) && len < m {
                    1int
                } else {
                    0int
                }) + (if rules.max_length matches Some(m) && len > m {
                    1int
                } else {
                    0int
                }),
            },
        },
        forall|k: int|
            0 <= k < length_diags(code, len, rules, dspan).len() ==> (#[trigger] length_diags(
                code,
                len,
                rules,
                dspan,
            )[k]).0 == BARCODE_DATA_LENGTH@,
{
}

/// The first position at or after `i` outside the set is the first one
/// there: every earlier character from `i` on is in the set.
proof fn lemma_first_invalid(s: Seq<char>, cs: Seq<u8>, i: int)
    requires
        0 <= i <= s.len(),
    ensures
        match first_invalid_from(s, cs, i) {
            Some(k) => i <= k < s.len() && !spec_char_in_set(s[k], cs) && forall|j: int|
                i <= j < k ==> spec_char_in_set(#[trigger] s[j], cs),
            None => forall|j: int| i <= j < s.len() ==> spec_char_in_set(#[trigger] s[j], cs),
        },
    decreases s.len() - i,
{
    if i < s.len() && spec_char_in_set(s[i], cs) {
        lemma_first_invalid(s, cs, i + 1);
    }
}

/// The character set is checked as declared: data gets a character
/// finding exactly when some character is outside the set, and the
/// finding names the first such character and its position.
pub proof fn law_charset_finding_iff_outside_char(
    code: Seq<char>,
    data: Seq<char>,
    rules: FieldDataRules,
    dspan: Option<Span>,
)
    requires
        rules.character_set is Some,
    ensures
        ({
            let cs = vstd::utf8::encode_utf8(rules.character_set->0@);
            let ds = charset_diags(code, data, rules, dspan);
            &&& ds.len() == (if exists|j: int| 0 <= j < data.len() && !spec_char_in_set(#[trigger] data[j], cs) {
                1int
            } else {
                0int
            })
            &&& ds.len() == 1 ==> exists|k: int|
                0 <= k < data.len() && !spec_char_in_set(#[trigger] data[k], cs) && (forall|j: int|
                    0 <= j < k ==> spec_char_in_set(#[trigger] data[j], cs)) && ds[0].4 == Some(
                    seq![
                        ("allowedSet"@, rules.character_set->0@),
                        ("character"@, seq![data[k]]),
                        ("command"@, code),
                        ("position"@, decimal(k as nat)),
                    ],
                )
        }),
{
    let cs = vstd::utf8::encode_utf8(rules.character_set->0@);
    lemma_first_invalid(data, cs, 0);
}

proof fn lemma_plain_set_from(ch: char, b: Seq<u8>, i: int)
    requires
        0 <= i <= b.len(),
        forall|k: int| 0 <= k < b.len() ==> #[trigger] b[k] != 92u8 && b[k] != 45u8,
    ensures
        in_set_from(ch, b, i) == exists|k: int| i <= k < b.len() && (#[trigger] b[k]) as char == ch,
    decreases b.len() - i,
{
    if i < b.len() {
        lemma_plain_set_from(ch, b, i + 1);
        if in_set_from(ch, b, i + 1) {
            let k = choose|k: int| i + 1 <= k < b.len() && (#[trigger] b[k]) as char == ch;
            assert(i <= k < b.len() && b[k] as char == ch);
        }
        if exists|k: int| i <= k < b.len() && (#[trigger] b[k]) as char == ch {
            let k = choose|k: int| i <= k < b.len() && (#[trigger] b[k]) as char == ch;
            if k > i {
                assert(i + 1 <= k < b.len() && b[k] as char == ch);
            }
        }
    }
}

/// A character set written as plain characters (no `\` escape and no `-`
/// range) holds exactly the characters it lists.
pub proof fn law_plain_charset_holds_its_characters(ch: char, b: Seq<u8>)
    requires
        forall|k: int| 0 <= k < b.len() ==> #[trigger] b[k] != 92u8 && b[k] != 45u8,
    ensures
        spec_char_in_set(ch, b) == exists|k: int| 0 <= k < b.len() && (#[trigger] b[k]) as char == ch,
{
    lemma_plain_set_from(ch, b, 0);
}

/// A character set written as one range `X-Y` holds exactly the
/// characters between `X` and `Y`, in either order.
pub proof fn law_range_charset(ch: char, x: u8, y: u8)
    requires
        x != 92u8,
        y != 92u8,
    ensures
        spec_char_in_set(ch, seq![x, 45u8, y]) == ((x as char) <= ch <= (y as char) || (y as char) <= ch <= (
        x as char)),
{
    let b = seq![x, 45u8, y];
    assert(!in_set_from(ch, b, 3));
}

} // verus!
