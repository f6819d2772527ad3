//! Structural semantic rules that commands declare in the spec tables:
//! duplicate field numbers, label dimensions set in the label, font
//! references, media modes against the profile, graphic data length, and
//! the graphic memory a label needs.

use crate::ast::Node;
use crate::constraints::opt_profile;
use crate::context::{CommandCtx, ValidationContext};
use crate::diag::{
    ctx_push, ctx_view, diag2, diags_view, push_diagnostic, spec_severity, DiagView, Diagnostic, SeverityRegistry,
    DUPLICATE_FIELD_NUMBER, GF_DATA_LENGTH_MISMATCH, MEDIA_MODE_UNSUPPORTED, UNKNOWN_FONT,
};
use crate::label_state::{keys_distinct, lemma_lookup_cases, lookup, pair_get, pairs_view, LabelState, LabelView};
use crate::predicates::{contains_code, seq_has};
use crate::profile::{PrintMethod, Profile};
use crate::state::{arg_first_char, arg_unsigned, arg_value, parse_char_arg, parse_u32_arg, parse_usize};
use crate::tables::{FontReferenceAction, MediaModesTarget, PositionBoundsAction, StructuralRule};
use crate::text::{char_string, chars_of, debug_list, debug_strings, decimal, msg2, msg3, owned, str_eq, usize_to_decimal, append_str};
use vstd::prelude::*;
use vstd::string::*;
use vstd::utf8::*;

verus! {

broadcast use vstd::seq::group_seq_axioms;

// ---------------------------------------------------------------------------
// Duplicate field numbers
// ---------------------------------------------------------------------------

/// The finding for field number `n` used again after node `first`.
pub open spec fn dup_number_diag(reg: SeverityRegistry, ctx: CommandCtx, n: Seq<char>, first: usize) -> DiagView {
    (
        DUPLICATE_FIELD_NUMBER@,
        spec_severity(reg, DUPLICATE_FIELD_NUMBER@),
        "Duplicate field number "@ + n + " (first used at node "@ + decimal(first as nat) + ")"@,
        ctx.span,
        Some(seq![("command"@, ctx.code@), ("field_number"@, n)]),
    )
}

/// A field number (argument `ai`) seen before is reported; a new one is
/// recorded with the command's node index.
pub open spec fn rule_field_number(reg: SeverityRegistry, v: LabelView, ctx: CommandCtx, ai: int) -> (LabelView, Seq<DiagView>) {
    match arg_value(ctx.args@, ai) {
        Some(n) => match lookup(v.field_numbers, n) {
            Some(first) => (v, seq![dup_number_diag(reg, ctx, n, first)]),
            None => (LabelView { field_numbers: v.field_numbers.push((n, ctx.node_idx)), ..v }, seq![]),
        },
        None => (v, seq![]),
    }
}

/// Reports a field number (argument `arg_index`) used twice in the label,
/// and records the first use of each.
pub fn validate_field_number(
    cmd_ctx: &CommandCtx,
    vctx: &ValidationContext,
    arg_index: usize,
    label_state: &mut LabelState,
    issues: &mut Vec<Diagnostic>,
)
    requires
        old(label_state).wf(),
    ensures
        final(label_state).wf(),
        final(label_state)@ == rule_field_number(*vctx.severities, old(label_state)@, *cmd_ctx, arg_index as int).0,
        diags_view(final(issues)@) == diags_view(old(issues)@) + rule_field_number(
            *vctx.severities,
            old(label_state)@,
            *cmd_ctx,
            arg_index as int,
        ).1,
{
    if arg_index < cmd_ctx.args.len() {
        match &cmd_ctx.args[arg_index].value {
            Some(n) => {
                match pair_get(&label_state.field_numbers, n.as_str()) {
                    Some(first_idx) => {
                        let mut msg = msg2("Duplicate field number ", n.as_str());
                        append_str(&mut msg, " (first used at node ");
                        let num = usize_to_decimal(first_idx);
                        append_str(&mut msg, num.as_str());
                        append_str(&mut msg, ")");
                        let d = diag2(
                            DUPLICATE_FIELD_NUMBER,
                            vctx.severities.severity_of(DUPLICATE_FIELD_NUMBER),
                            msg,
                            cmd_ctx.span,
                            "command",
                            owned(cmd_ctx.code),
                            "field_number",
                            owned(n.as_str()),
                        );
                        push_diagnostic(issues, d);
                    },
                    None => {
                        let ghost o = label_state@;
                        proof {
                            lemma_lookup_cases(o.field_numbers, n@);
                        }
                        label_state.field_numbers.push((owned(n.as_str()), cmd_ctx.node_idx));
                        proof {
                            let w = label_state@.field_numbers;
                            assert(w =~= o.field_numbers.push((n@, cmd_ctx.node_idx)));
                            assert forall|a: int, b: int| 0 <= a < b < w.len() implies (#[trigger] w[a]).0
                                != (#[trigger] w[b]).0 by {
                                assert(w[a] == o.field_numbers[a]);
                                if b < o.field_numbers.len() {
                                    assert(w[b] == o.field_numbers[b]);
                                }
                            }
                        }
                    },
                }
            },
            None => {},
        }
    }
}

// ---------------------------------------------------------------------------
// Font references
// ---------------------------------------------------------------------------

/// A font built into the printer: `A`-`Z` or `0`-`9`.
pub open spec fn is_builtin_font(c: char) -> bool {
    ('A' <= c <= 'Z') || ('0' <= c <= '9')
}

/// The finding for a font that is neither built in nor loaded.
pub open spec fn font_diag(reg: SeverityRegistry, ctx: CommandCtx, ch: char) -> DiagView {
    (
        UNKNOWN_FONT@,
        spec_severity(reg, UNKNOWN_FONT@),
        ctx.code@ + " font '"@ + seq![ch] + "' is not a built-in font (A-Z, 0-9) and has not been loaded via ^CW"@,
        ctx.span,
        Some(seq![("command"@, ctx.code@), ("font"@, seq![ch])]),
    )
}

/// `^CW` loads the font named by the first character of argument `ai`; a
/// font use reports a font that is neither built in nor loaded.
pub open spec fn rule_font_reference(
    reg: SeverityRegistry,
    v: LabelView,
    ctx: CommandCtx,
    action: FontReferenceAction,
    ai: int,
) -> (LabelView, Seq<DiagView>) {
    match arg_first_char(ctx.args@, ai) {
        Some(ch) => match action {
            FontReferenceAction::Register => (
                LabelView {
                    fonts: if v.fonts.contains(ch) {
                        v.fonts
                    } else {
                        v.fonts.push(ch)
                    },
                    ..v
                },
                seq![],
            ),
            FontReferenceAction::Validate => (v, if is_builtin_font(ch) || v.fonts.contains(ch) {
                seq![]
            } else {
                seq![font_diag(reg, ctx, ch)]
            }),
        },
        None => (v, seq![]),
    }
}

fn font_loaded(fonts: &Vec<char>, c: char) -> (r: bool)
    ensures
        r == fonts@.contains(c),
{
    let mut i: usize = 0;
    while i < fonts.len()
        invariant
            i <= fonts@.len(),
            forall|j: int| 0 <= j < i ==> fonts@[j] != c,
        decreases fonts.len() - i,
    {
        if fonts[i] == c {
            return true;
        }
        i = i + 1;
    }
    false
}

/// Loads a font with `^CW`, or checks that a used font is built in or
/// loaded.
pub fn validate_font_reference(
    cmd_ctx: &CommandCtx,
    vctx: &ValidationContext,
    action: FontReferenceAction,
    arg_index: usize,
    label_state: &mut LabelState,
    issues: &mut Vec<Diagnostic>,
)
    requires
        old(label_state).wf(),
    ensures
        final(label_state).wf(),
        final(label_state)@ == rule_font_reference(*vctx.severities, old(label_state)@, *cmd_ctx, action, arg_index as int).0,
        diags_view(final(issues)@) == diags_view(old(issues)@) + rule_font_reference(
            *vctx.severities,
            old(label_state)@,
            *cmd_ctx,
            action,
            arg_index as int,
        ).1,
{
    let ghost o = label_state@;
    match parse_char_arg(cmd_ctx.args, arg_index) {
        Some(ch) => {
            match action {
                FontReferenceAction::Register => {
                    if !font_loaded(&label_state.loaded_fonts, ch) {
                        label_state.loaded_fonts.push(ch);
                    }
                    assert(label_state@ == rule_font_reference(*vctx.severities, o, *cmd_ctx, action, arg_index as int).0);
                },
                FontReferenceAction::Validate => {
                    let is_builtin = (ch >= 'A' && ch <= 'Z') || (ch >= '0' && ch <= '9');
                    let is_loaded = font_loaded(&label_state.loaded_fonts, ch);
                    if !is_builtin && !is_loaded {
                        let mut msg = msg2(cmd_ctx.code, " font '");
                        let cs = char_string(ch);
                        append_str(&mut msg, cs.as_str());
                        append_str(&mut msg, "' is not a built-in font (A-Z, 0-9) and has not been loaded via ^CW");
                        let d = diag2(
                            UNKNOWN_FONT,
                            vctx.severities.severity_of(UNKNOWN_FONT),
                            msg,
                            cmd_ctx.span,
                            "command",
                            owned(cmd_ctx.code),
                            "font",
                            char_string(ch),
                        );
                        push_diagnostic(issues, d);
                    }
                },
            }
        },
        None => {},
    }
}

// ---------------------------------------------------------------------------
// Media modes
// ---------------------------------------------------------------------------

/// The name `{:?}` gives a print method.
pub open spec fn method_name(m: PrintMethod) -> Seq<char> {
    match m {
        PrintMethod::DirectThermal => "DirectThermal"@,
        PrintMethod::ThermalTransfer => "ThermalTransfer"@,
        PrintMethod::Both => "Both"@,
    }
}

/// Whether media type `val` suits the print method: `D` direct thermal,
/// `T` thermal transfer, anything with a printer that does both.
pub open spec fn method_compatible(m: PrintMethod, val: Seq<char>) -> bool {
    match m {
        PrintMethod::Both => true,
        PrintMethod::DirectThermal => val == "D"@,
        PrintMethod::ThermalTransfer => val == "T"@,
    }
}

/// The plain views of a list of strings.
pub open spec fn strs_view(v: Seq<String>) -> Seq<Seq<char>> {
    v.map_values(|s: String| s@)
}

/// The finding for a mode missing from a non-empty list the profile gives.
pub open spec fn mode_diag(
    reg: SeverityRegistry,
    ctx: CommandCtx,
    what: Seq<char>,
    list_name: Seq<char>,
    kind: Seq<char>,
    val: Seq<char>,
    list: Seq<Seq<char>>,
    pid: Seq<char>,
) -> DiagView {
    (
        MEDIA_MODE_UNSUPPORTED@,
        spec_severity(reg, MEDIA_MODE_UNSUPPORTED@),
        ctx.code@ + " "@ + what + " '"@ + val + "' is not in profile's "@ + list_name + " "@ + debug_list(list),
        ctx.span,
        Some(
            seq![
                ("command"@, ctx.code@),
                ("kind"@, kind),
                ("profile"@, pid),
                ("supported"@, debug_list(list)),
                ("value"@, val),
            ],
        ),
    )
}

/// The finding for a media type that conflicts with the print method.
pub open spec fn method_diag(reg: SeverityRegistry, ctx: CommandCtx, val: Seq<char>, m: PrintMethod, pid: Seq<char>) -> DiagView {
    (
        MEDIA_MODE_UNSUPPORTED@,
        spec_severity(reg, MEDIA_MODE_UNSUPPORTED@),
        ctx.code@ + " media type '"@ + val + "' conflicts with profile print method '"@ + method_name(m) + "'"@,
        ctx.span,
        Some(
            seq![
                ("command"@, ctx.code@),
                ("kind"@, "method"@),
                ("profile"@, pid),
                ("profile_method"@, method_name(m)),
                ("value"@, val),
            ],
        ),
    )
}

/// With a profile that describes its media, argument `ai` must be one of
/// the supported print modes, one of the supported tracking modes, or a
/// media type the print method allows.
pub open spec fn rule_media_modes(
    reg: SeverityRegistry,
    ctx: CommandCtx,
    profile: Option<Profile>,
    target: MediaModesTarget,
    ai: int,
) -> Seq<DiagView> {
    match (arg_value(ctx.args@, ai), profile) {
        (Some(val), Some(p)) => match p.media {
            Some(m) => match target {
                MediaModesTarget::SupportedModes => match m.supported_modes {
                    Some(modes) => if modes@.len() > 0 && !seq_has(modes@, val) {
                        seq![
                            mode_diag(
                                reg,
                                ctx,
                                "mode"@,
                                "supported_modes"@,
                                "mode"@,
                                val,
                                strs_view(modes@),
                                p.id@,
                            ),
                        ]
                    } else {
                        seq![]
                    },
                    None => seq![],
                },
                MediaModesTarget::SupportedTracking => match m.supported_tracking {
                    Some(tr) => if tr@.len() > 0 && !seq_has(tr@, val) {
                        seq![
                            mode_diag(
                                reg,
                                ctx,
                                "tracking mode"@,
                                "supported_tracking"@,
                                "tracking"@,
                                val,
                                strs_view(tr@),
                                p.id@,
                            ),
                        ]
                    } else {
                        seq![]
                    },
                    None => seq![],
                },
                MediaModesTarget::PrintMethod => match m.print_method {
                    Some(pm) => if !method_compatible(pm, val) {
                        seq![method_diag(reg, ctx, val, pm, p.id@)]
                    } else {
                        seq![]
                    },
                    None => seq![],
                },
            },
            None => seq![],
        },
        _ => seq![],
    }
}

/// A context of five entries, in order.
fn ctx5(
    k1: &str,
    v1: String,
    k2: &str,
    v2: String,
    k3: &str,
    v3: String,
    k4: &str,
    v4: String,
    k5: &str,
    v5: String,
) -> (r: Vec<(String, String)>)
    ensures
        ctx_view(r@) == seq![(k1@, v1@), (k2@, v2@), (k3@, v3@), (k4@, v4@), (k5@, v5@)],
{
    let ghost e = seq![(k1@, v1@), (k2@, v2@), (k3@, v3@), (k4@, v4@), (k5@, v5@)];
    let mut c: Vec<(String, String)> = Vec::new();
    ctx_push(&mut c, k1, v1);
    ctx_push(&mut c, k2, v2);
    ctx_push(&mut c, k3, v3);
    ctx_push(&mut c, k4, v4);
    ctx_push(&mut c, k5, v5);
    assert(ctx_view(c@) =~= e);
    c
}

fn push_mode_diag(
    cmd_ctx: &CommandCtx,
    vctx: &ValidationContext,
    what: &str,
    list_name: &str,
    kind: &str,
    val: &str,
    list: &Vec<String>,
    pid: &str,
    issues: &mut Vec<Diagnostic>,
)
    ensures
        diags_view(final(issues)@) == diags_view(old(issues)@).push(
            mode_diag(*vctx.severities, *cmd_ctx, what@, list_name@, kind@, val@, strs_view(list@), pid@),
        ),
{
    let shown = debug_strings(list);
    let mut msg = msg3(cmd_ctx.code, " ", what);
    append_str(&mut msg, " '");
    append_str(&mut msg, val);
    append_str(&mut msg, "' is not in profile's ");
    append_str(&mut msg, list_name);
    append_str(&mut msg, " ");
    append_str(&mut msg, shown.as_str());
    let c = ctx5(
        "command",
        owned(cmd_ctx.code),
        "kind",
        owned(kind),
        "profile",
        owned(pid),
        "supported",
        shown,
        "value",
        owned(val),
    );
    let d = Diagnostic::new(MEDIA_MODE_UNSUPPORTED, vctx.severities.severity_of(MEDIA_MODE_UNSUPPORTED), msg, cmd_ctx.span)
        .with_context(c);
    push_diagnostic(issues, d);
}

/// Checks a media mode argument against the profile's media facts.
pub fn validate_media_modes(
    cmd_ctx: &CommandCtx,
    vctx: &ValidationContext,
    target: MediaModesTarget,
    arg_index: usize,
    issues: &mut Vec<Diagnostic>,
)
    ensures
        diags_view(final(issues)@) == diags_view(old(issues)@) + rule_media_modes(
            *vctx.severities,
            *cmd_ctx,
            opt_profile(vctx.profile),
            target,
            arg_index as int,
        ),
{
    if arg_index >= cmd_ctx.args.len() {
        return;
    }
    let val = match &cmd_ctx.args[arg_index].value {
        Some(v) => v,
        None => {
            return;
        },
    };
    let p = match vctx.profile {
        Some(p) => p,
        None => {
            return;
        },
    };
    let media = match &p.media {
        Some(m) => m,
        None => {
            return;
        },
    };
    match target {
        MediaModesTarget::SupportedModes => {
            match &media.supported_modes {
                Some(modes) => {
                    if modes.len() > 0 && !contains_code(modes, &chars_of(val.as_str())) {
                        push_mode_diag(
                            cmd_ctx,
                            vctx,
                            "mode",
                            "supported_modes",
                            "mode",
                            val.as_str(),
                            modes,
                            p.id.as_str(),
                            issues,
                        );
                    }
                },
                None => {},
            }
        },
        MediaModesTarget::SupportedTracking => {
            match &media.supported_tracking {
                Some(tr) => {
                    if tr.len() > 0 && !contains_code(tr, &chars_of(val.as_str())) {
                        push_mode_diag(
                            cmd_ctx,
                            vctx,
                            "tracking mode",
                            "supported_tracking",
                            "tracking",
                            val.as_str(),
                            tr,
                            p.id.as_str(),
                            issues,
                        );
                    }
                },
                None => {},
            }
        },
        MediaModesTarget::PrintMethod => {
            match media.print_method {
                Some(pm) => {
                    let (compatible, name) = match pm {
                        PrintMethod::Both => (true, "Both"),
                        PrintMethod::DirectThermal => (str_eq(val.as_str(), "D"), "DirectThermal"),
                        PrintMethod::ThermalTransfer => (str_eq(val.as_str(), "T"), "ThermalTransfer"),
                    };
                    if !compatible {
                        let mut msg = msg3(cmd_ctx.code, " media type '", val.as_str());
                        append_str(&mut msg, "' conflicts with profile print method '");
                        append_str(&mut msg, name);
                        append_str(&mut msg, "'");
                        let c = ctx5(
                            "command",
                            owned(cmd_ctx.code),
                            "kind",
                            owned("method"),
                            "profile",
                            owned(p.id.as_str()),
                            "profile_method",
                            owned(name),
                            "value",
                            owned(val.as_str()),
                        );
                        let d = Diagnostic::new(
                            MEDIA_MODE_UNSUPPORTED,
                            vctx.severities.severity_of(MEDIA_MODE_UNSUPPORTED),
                            msg,
                            cmd_ctx.span,
                        ).with_context(c);
                        push_diagnostic(issues, d);
                    }
                },
                None => {},
            }
        },
    }
}

// ---------------------------------------------------------------------------
// Graphic data length
// ---------------------------------------------------------------------------

/// An ASCII whitespace byte: space, tab, line feed, form feed, carriage return.
pub open spec fn is_ascii_ws_byte(b: u8) -> bool {
    b == 32 || b == 9 || b == 10 || b == 12 || b == 13
}

/// The number of bytes that are not ASCII whitespace.
pub open spec fn non_ws_count(b: Seq<u8>) -> nat
    decreases b.len(),
{
    if b.len() == 0 {
        0
    } else {
        non_ws_count(b.drop_last()) + if is_ascii_ws_byte(b.last()) {
            0nat
        } else {
            1nat
        }
    }
}

/// The length graphic data counts for: its bytes, without ASCII whitespace
/// when `strip` is set.
pub open spec fn effective_len(s: Seq<char>, strip: bool) -> nat {
    if strip {
        non_ws_count(encode_utf8(s))
    } else {
        encode_utf8(s).len()
    }
}

/// The length of the raw data continuing command `code` from node `k` on:
/// consecutive raw-data nodes of that command.
pub open spec fn continuation_len(nodes: Seq<Node>, k: int, code: Seq<char>, strip: bool) -> nat
    decreases nodes.len() - k,
{
    if k < 0 || k >= nodes.len() {
        0
    } else {
        match nodes[k] {
            Node::RawData { command, data, .. } => if command@ == code {
                (match data {
                    Some(d) => effective_len(d@, strip),
                    None => 0nat,
                }) + continuation_len(nodes, k + 1, code, strip)
            } else {
                0
            },
            _ => 0,
        }
    }
}

/// The compression of graphic data: argument `ci`, `A` when it is absent.
pub open spec fn gf_compression(ctx: CommandCtx, ci: int) -> Seq<char> {
    match arg_value(ctx.args@, ci) {
        Some(c) => c,
        None => "A"@,
    }
}

/// The total data length of a graphic command: its data argument and the
/// raw data that continues it.
pub open spec fn gf_total(ctx: CommandCtx, nodes: Seq<Node>, ci: int, dai: int) -> nat {
    let strip = gf_compression(ctx, ci) != "B"@;
    match arg_value(ctx.args@, dai) {
        Some(data) => effective_len(data, strip) + continuation_len(nodes, ctx.node_idx + 1, ctx.code@, strip),
        None => 0,
    }
}

/// The check can run: the arguments it indexes exist, the command's node is
/// in the label, and the lengths it computes fit in a `usize`.
pub open spec fn gf_length_ok(ctx: CommandCtx, nodes: Seq<Node>, ci: int, di: int, dai: int) -> bool {
    ctx.args@.len() > dai ==> {
        &&& 0 <= ci < ctx.args@.len()
        &&& 0 <= di < ctx.args@.len()
        &&& (arg_value(ctx.args@, dai) is Some && arg_unsigned(ctx.args@, di, usize::MAX as nat) is Some) ==> {
            &&& ctx.node_idx < nodes.len()
            &&& gf_total(ctx, nodes, ci, dai) <= usize::MAX
            &&& (gf_compression(ctx, ci) == "A"@ ==> arg_unsigned(ctx.args@, di, usize::MAX as nat)->0 * 2
                <= usize::MAX)
        }
    }
}

/// The finding for a graphic data length that does not match the declared size.
pub open spec fn gf_length_diag(
    reg: SeverityRegistry,
    ctx: CommandCtx,
    compression: Seq<char>,
    declared: nat,
    fmt: Seq<char>,
    actual: nat,
    expected: nat,
) -> DiagView {
    (
        GF_DATA_LENGTH_MISMATCH@,
        spec_severity(reg, GF_DATA_LENGTH_MISMATCH@),
        "^GF data length mismatch: declared "@ + decimal(declared) + " bytes ("@ + fmt + "), but data is "@
            + decimal(actual) + " chars (expected "@ + decimal(expected) + ")"@,
        ctx.span,
        Some(
            seq![
                ("actual"@, decimal(actual)),
                ("command"@, ctx.code@),
                ("declared"@, decimal(declared)),
                ("expected"@, decimal(expected)),
                ("format"@, compression),
            ],
        ),
    )
}

/// With a declared byte count (argument `di`) and data (argument `dai`),
/// the data and its continuations must hold two hex characters per byte
/// for compression `A` (whitespace not counted) and one byte per byte for
/// `B`; other compressions are not checked.
pub open spec fn rule_gf_data_length(
    reg: SeverityRegistry,
    ctx: CommandCtx,
    nodes: Seq<Node>,
    ci: int,
    di: int,
    dai: int,
) -> Seq<DiagView> {
    if ctx.args@.len() <= dai {
        seq![]
    } else {
        match (arg_value(ctx.args@, dai), arg_unsigned(ctx.args@, di, usize::MAX as nat)) {
            (Some(_), Some(declared)) => {
                let c = gf_compression(ctx, ci);
                let total = gf_total(ctx, nodes, ci, dai);
                if c == "A"@ && total != declared * 2 {
                    seq![gf_length_diag(reg, ctx, c, declared, "ASCII hex (2 chars per byte)"@, total, declared * 2)]
                } else if c == "B"@ && total != declared {
                    seq![gf_length_diag(reg, ctx, c, declared, "binary (1:1)"@, total, declared)]
                } else {
                    seq![]
                }
            },
            _ => seq![],
        }
    }
}

/// The length graphic data counts for (see [`effective_len`]).
fn data_len(s: &str, strip: bool) -> (r: usize)
    ensures
        r == effective_len(s@, strip),
{
    let b = s.as_bytes();
    if !strip {
        return b.len();
    }
    let mut n: usize = 0;
    let mut i: usize = 0;
    while i < b.len()
        invariant
            i <= b@.len(),
            b@ == encode_utf8(s@),
            n == non_ws_count(b@.take(i as int)),
            n <= i,
        decreases b.len() - i,
    {
        let c = b[i];
        proof {
            assert(b@.take(i + 1).drop_last() =~= b@.take(i as int));
        }
        if !(c == 32 || c == 9 || c == 10 || c == 12 || c == 13) {
            n = n + 1;
        }
        i = i + 1;
    }
    assert(b@.take(b@.len() as int) =~= b@);
    n
}

/// Checks that graphic data matches its declared byte count.
pub fn validate_gf_data_length(
    cmd_ctx: &CommandCtx,
    vctx: &ValidationContext,
    compression_arg_index: usize,
    declared_byte_count_arg_index: usize,
    data_arg_index: usize,
    issues: &mut Vec<Diagnostic>,
)
    requires
        gf_length_ok(
            *cmd_ctx,
            vctx.label_nodes@,
            compression_arg_index as int,
            declared_byte_count_arg_index as int,
            data_arg_index as int,
        ),
    ensures
        diags_view(final(issues)@) == diags_view(old(issues)@) + rule_gf_data_length(
            *vctx.severities,
            *cmd_ctx,
            vctx.label_nodes@,
            compression_arg_index as int,
            declared_byte_count_arg_index as int,
            data_arg_index as int,
        ),
{
    let ghost d0 = diags_view(issues@);
    assert(d0 + seq![] =~= d0);
    if cmd_ctx.args.len() <= data_arg_index {
        return;
    }
    let compression: &str = match &cmd_ctx.args[compression_arg_index].value {
        Some(c) => c.as_str(),
        None => "A",
    };
    let data: &str = match &cmd_ctx.args[data_arg_index].value {
        Some(d) => d.as_str(),
        None => {
            return;
        },
    };
    let declared = match &cmd_ctx.args[declared_byte_count_arg_index].value {
        Some(bc) => match parse_usize(bc.as_str()) {
            Some(v) => v,
            None => {
                return;
            },
        },
        None => {
            return;
        },
    };
    let ghost ctx = *cmd_ctx;
    let ghost nodes = vctx.label_nodes@;
    let strip = !str_eq(compression, "B");
    proof {
        assert(compression@ == gf_compression(ctx, compression_arg_index as int));
        assert(arg_unsigned(ctx.args@, declared_byte_count_arg_index as int, usize::MAX as nat) == Some(declared as nat));
    }
    proof {
        assert(arg_value(ctx.args@, data_arg_index as int) == Some(data@));
    }
    let n = vctx.label_nodes.len();
    let mut total = data_len(data, strip);
    let mut k = cmd_ctx.node_idx + 1;
    let mut done = false;
    while k < n && !done
        invariant
            cmd_ctx.node_idx + 1 <= k <= nodes.len(),
            n == nodes.len(),
            nodes == vctx.label_nodes@,
            total + continuation_len(nodes, k as int, ctx.code@, strip) == gf_total(
                ctx,
                nodes,
                compression_arg_index as int,
                data_arg_index as int,
            ),
            gf_total(ctx, nodes, compression_arg_index as int, data_arg_index as int) <= usize::MAX,
            ctx == *cmd_ctx,
            strip == (gf_compression(ctx, compression_arg_index as int) != "B"@),
            done ==> continuation_len(nodes, k as int, ctx.code@, strip) == 0,
        decreases n - k, if done {
            0int
        } else {
            1int
        },
    {
        match &vctx.label_nodes[k] {
            Node::RawData { command, data: raw, .. } => {
                if str_eq(command.as_str(), cmd_ctx.code) {
                    let add = match raw {
                        Some(d) => data_len(d.as_str(), strip),
                        None => 0,
                    };
                    total = total + add;
                    k = k + 1;
                } else {
                    done = true;
                }
            },
            _ => {
                done = true;
            },
        }
    }
    proof {
        assert(continuation_len(nodes, k as int, ctx.code@, strip) == 0);
        assert(total == gf_total(ctx, nodes, compression_arg_index as int, data_arg_index as int));
    }
    let a = str_eq(compression, "A");
    let b = !strip;
    let ghost r = rule_gf_data_length(
        *vctx.severities,
        ctx,
        nodes,
        compression_arg_index as int,
        declared_byte_count_arg_index as int,
        data_arg_index as int,
    );
    proof {
        reveal_strlit("A");
        reveal_strlit("B");
        assert("A"@[0] != "B"@[0]);
    }
    if a {
        let expected = declared * 2;
        if total != expected {
            push_gf_diag(cmd_ctx, vctx, compression, declared, "ASCII hex (2 chars per byte)", total, expected, issues);
            assert(diags_view(issues@) =~= d0 + r);
        } else {
            assert(r =~= seq![]);
            assert(diags_view(issues@) =~= d0 + r);
        }
    } else if b {
        if total != declared {
            push_gf_diag(cmd_ctx, vctx, compression, declared, "binary (1:1)", total, declared, issues);
            assert(diags_view(issues@) =~= d0 + r);
        } else {
            assert(r =~= seq![]);
            assert(diags_view(issues@) =~= d0 + r);
        }
    } else {
        assert(r =~= seq![]);
        assert(diags_view(issues@) =~= d0 + r);
    }
}

/// Whether the graphic data length check can run on this command (see
/// [`gf_length_ok`]): where it cannot, indexing its arguments fails or its
/// lengths overflow.
pub fn gf_length_runnable(
    cmd_ctx: &CommandCtx,
    vctx: &ValidationContext,
    compression_arg_index: usize,
    declared_byte_count_arg_index: usize,
    data_arg_index: usize,
) -> (r: bool)
    ensures
        r == gf_length_ok(
            *cmd_ctx,
            vctx.label_nodes@,
            compression_arg_index as int,
            declared_byte_count_arg_index as int,
            data_arg_index as int,
        ),
{
    let ghost ctx = *cmd_ctx;
    let ghost nodes = vctx.label_nodes@;
    let ghost ci = compression_arg_index as int;
    let ghost di = declared_byte_count_arg_index as int;
    let ghost dai = data_arg_index as int;
    if cmd_ctx.args.len() <= data_arg_index {
        return true;
    }
    if compression_arg_index >= cmd_ctx.args.len() || declared_byte_count_arg_index >= cmd_ctx.args.len() {
        return false;
    }
    let data: &str = match &cmd_ctx.args[data_arg_index].value {
        Some(d) => d.as_str(),
        None => {
            return true;
        },
    };
    let declared = match &cmd_ctx.args[declared_byte_count_arg_index].value {
        Some(bc) => match parse_usize(bc.as_str()) {
            Some(v) => v,
            None => {
                return true;
            },
        },
        None => {
            return true;
        },
    };
    proof {
        assert(arg_value(ctx.args@, dai) == Some(data@));
        assert(arg_unsigned(ctx.args@, di, usize::MAX as nat) == Some(declared as nat));
    }
    if cmd_ctx.node_idx >= vctx.label_nodes.len() {
        return false;
    }
    let compression: &str = match &cmd_ctx.args[compression_arg_index].value {
        Some(c) => c.as_str(),
        None => "A",
    };
    proof {
        assert(compression@ == gf_compression(ctx, ci));
    }
    let strip = !str_eq(compression, "B");
    if str_eq(compression, "A") && declared > usize::MAX / 2 {
        return false;
    }
    let n = vctx.label_nodes.len();
    let mut total = data_len(data, strip);
    let mut k = cmd_ctx.node_idx + 1;
    let mut done = false;
    while k < n && !done
        invariant
            cmd_ctx.node_idx + 1 <= k <= nodes.len(),
            n == nodes.len(),
            nodes == vctx.label_nodes@,
            total + continuation_len(nodes, k as int, ctx.code@, strip) == gf_total(ctx, nodes, ci, dai),
            ctx == *cmd_ctx,
            ctx.args@.len() > dai,
            0 <= ci < ctx.args@.len(),
            0 <= di < ctx.args@.len(),
            arg_value(ctx.args@, dai) is Some,
            arg_unsigned(ctx.args@, di, usize::MAX as nat) == Some(declared as nat),
            ctx.node_idx < nodes.len(),
            gf_compression(ctx, ci) == "A"@ ==> declared as nat * 2 <= usize::MAX,
            ci == compression_arg_index,
            di == declared_byte_count_arg_index,
            dai == data_arg_index,
            strip == (gf_compression(ctx, ci) != "B"@),
            done ==> continuation_len(nodes, k as int, ctx.code@, strip) == 0,
        decreases n - k, if done {
            0int
        } else {
            1int
        },
    {
        match &vctx.label_nodes[k] {
            Node::RawData { command, data: raw, .. } => {
                if str_eq(command.as_str(), cmd_ctx.code) {
                    let add = match raw {
                        Some(d) => data_len(d.as_str(), strip),
                        None => 0,
                    };
                    proof {
                        assert(continuation_len(nodes, k as int, ctx.code@, strip) == add + continuation_len(
                            nodes,
                            k + 1,
                            ctx.code@,
                            strip,
                        ));
                    }
                    if add > usize::MAX - total {
                        return false;
                    }
                    total = total + add;
                    k = k + 1;
                } else {
                    done = true;
                }
            },
            _ => {
                done = true;
            },
        }
    }
    proof {
        assert(continuation_len(nodes, k as int, ctx.code@, strip) == 0);
    }
    true
}

fn push_gf_diag(
    cmd_ctx: &CommandCtx,
    vctx: &ValidationContext,
    compression: &str,
    declared: usize,
    fmt: &str,
    actual: usize,
    expected: usize,
    issues: &mut Vec<Diagnostic>,
)
    ensures
        diags_view(final(issues)@) == diags_view(old(issues)@).push(
            gf_length_diag(
                *vctx.severities,
                *cmd_ctx,
                compression@,
                declared as nat,
                fmt@,
                actual as nat,
                expected as nat,
            ),
        ),
{
    let mut msg = owned("^GF data length mismatch: declared ");
    append_str(&mut msg, usize_to_decimal(declared).as_str());
    append_str(&mut msg, " bytes (");
    append_str(&mut msg, fmt);
    append_str(&mut msg, "), but data is ");
    append_str(&mut msg, usize_to_decimal(actual).as_str());
    append_str(&mut msg, " chars (expected ");
    append_str(&mut msg, usize_to_decimal(expected).as_str());
    append_str(&mut msg, ")");
    let c = ctx5(
        "actual",
        usize_to_decimal(actual),
        "command",
        owned(cmd_ctx.code),
        "declared",
        usize_to_decimal(declared),
        "expected",
        usize_to_decimal(expected),
        "format",
        owned(compression),
    );
    let d = Diagnostic::new(GF_DATA_LENGTH_MISMATCH, vctx.severities.severity_of(GF_DATA_LENGTH_MISMATCH), msg, cmd_ctx.span)
        .with_context(c);
    push_diagnostic(issues, d);
}

// ---------------------------------------------------------------------------
// Graphic memory, label dimensions, and the rule dispatch
// ---------------------------------------------------------------------------

/// Graphic bytes (argument `gi`) add up, saturating at `u32::MAX`, once the
/// bytes-per-row argument `bi` is present.
pub open spec fn rule_gf_tracking(v: LabelView, ctx: CommandCtx, gi: int, bi: int) -> LabelView {
    if ctx.args@.len() <= bi {
        v
    } else {
        match arg_unsigned(ctx.args@, gi, u32::MAX as nat) {
            Some(c) => LabelView {
                gf_total_bytes: if v.gf_total_bytes + c > u32::MAX {
                    u32::MAX
                } else {
                    (v.gf_total_bytes + c) as u32
                },
                ..v
            },
            None => v,
        }
    }
}

/// `^PW` and `^LL` record that the label sets its own dimensions.
pub open spec fn rule_position_bounds(v: LabelView, action: PositionBoundsAction) -> LabelView {
    match action {
        PositionBoundsAction::TrackWidth => LabelView { has_explicit_pw: true, ..v },
        PositionBoundsAction::TrackHeight => LabelView { has_explicit_ll: true, ..v },
        PositionBoundsAction::CheckBounds => v,
    }
}

/// What one rule does to the label state and which findings it adds.
pub open spec fn spec_rule(v: LabelView, rule: StructuralRule, ctx: CommandCtx, vctx: ValidationContext) -> (
    LabelView,
    Seq<DiagView>,
) {
    let reg = *vctx.severities;
    match rule {
        StructuralRule::DuplicateFieldNumber { arg_index } => rule_field_number(reg, v, ctx, arg_index as int),
        StructuralRule::PositionBounds { action } => (rule_position_bounds(v, action), seq![]),
        StructuralRule::FontReference { action, arg_index } => rule_font_reference(
            reg,
            v,
            ctx,
            action,
            arg_index as int,
        ),
        StructuralRule::MediaModes { target, arg_index } => (
            v,
            rule_media_modes(reg, ctx, opt_profile(vctx.profile), target, arg_index as int),
        ),
        StructuralRule::GfDataLength {
            compression_arg_index,
            declared_byte_count_arg_index,
            data_arg_index,
        } => (
            v,
            rule_gf_data_length(
                reg,
                ctx,
                vctx.label_nodes@,
                compression_arg_index as int,
                declared_byte_count_arg_index as int,
                data_arg_index as int,
            ),
        ),
        StructuralRule::GfPreflightTracking { graphic_field_count_arg_index, bytes_per_row_arg_index } => (
            rule_gf_tracking(v, ctx, graphic_field_count_arg_index as int, bytes_per_row_arg_index as int),
            seq![],
        ),
    }
}

/// A rule can run on the command.
pub open spec fn rule_ok(rule: StructuralRule, ctx: CommandCtx, vctx: ValidationContext) -> bool {
    match rule {
        StructuralRule::GfDataLength {
            compression_arg_index,
            declared_byte_count_arg_index,
            data_arg_index,
        } => gf_length_ok(
            ctx,
            vctx.label_nodes@,
            compression_arg_index as int,
            declared_byte_count_arg_index as int,
            data_arg_index as int,
        ),
        _ => true,
    }
}

/// Runs one structural rule. Bounds of field origins and graphics against
/// the label size are estimated in floating point and are not checked here.
pub fn run_semantic_rule(
    rule: &StructuralRule,
    cmd_ctx: &CommandCtx,
    vctx: &ValidationContext,
    label_state: &mut LabelState,
    issues: &mut Vec<Diagnostic>,
)
    requires
        old(label_state).wf(),
        rule_ok(*rule, *cmd_ctx, *vctx),
    ensures
        final(label_state).wf(),
        final(label_state)@ == spec_rule(old(label_state)@, *rule, *cmd_ctx, *vctx).0,
        diags_view(final(issues)@) == diags_view(old(issues)@) + spec_rule(
            old(label_state)@,
            *rule,
            *cmd_ctx,
            *vctx,
        ).1,
{
    let ghost v0 = label_state@;
    match *rule {
        StructuralRule::DuplicateFieldNumber { arg_index } => {
            validate_field_number(cmd_ctx, vctx, arg_index, label_state, issues);
        },
        StructuralRule::PositionBounds { action } => {
            match action {
                PositionBoundsAction::TrackWidth => {
                    label_state.has_explicit_pw = true;
                },
                PositionBoundsAction::TrackHeight => {
                    label_state.has_explicit_ll = true;
                },
                PositionBoundsAction::CheckBounds => {},
            }
            assert(label_state@ == rule_position_bounds(v0, action));
            assert(diags_view(issues@) =~= diags_view(old(issues)@) + seq![]);
        },
        StructuralRule::FontReference { action, arg_index } => {
            validate_font_reference(cmd_ctx, vctx, action, arg_index, label_state, issues);
        },
        StructuralRule::MediaModes { target, arg_index } => {
            validate_media_modes(cmd_ctx, vctx, target, arg_index, issues);
        },
        StructuralRule::GfDataLength { compression_arg_index, declared_byte_count_arg_index, data_arg_index } => {
            validate_gf_data_length(
                cmd_ctx,
                vctx,
                compression_arg_index,
                declared_byte_count_arg_index,
                data_arg_index,
                issues,
            );
        },
        StructuralRule::GfPreflightTracking { graphic_field_count_arg_index, bytes_per_row_arg_index } => {
            if cmd_ctx.args.len() > bytes_per_row_arg_index {
                match parse_u32_arg(cmd_ctx.args, graphic_field_count_arg_index) {
                    Some(c) => {
                        label_state.gf_total_bytes = if label_state.gf_total_bytes > u32::MAX - c {
                            u32::MAX
                        } else {
                            label_state.gf_total_bytes + c
                        };
                    },
                    None => {},
                }
            }
            assert(label_state@ == rule_gf_tracking(
                v0,
                *cmd_ctx,
                graphic_field_count_arg_index as int,
                bytes_per_row_arg_index as int,
            ));
            assert(diags_view(issues@) =~= diags_view(old(issues)@) + seq![]);
        },
    }
}

/// What the rules `0..k` do, in order.
pub open spec fn spec_rules(v: LabelView, rules: Seq<StructuralRule>, k: int, ctx: CommandCtx, vctx: ValidationContext) -> (
    LabelView,
    Seq<DiagView>,
)
    decreases k,
{
    if k <= 0 {
        (v, seq![])
    } else {
        let (v1, d1) = spec_rules(v, rules, k - 1, ctx, vctx);
        let (v2, d2) = spec_rule(v1, rules[k - 1], ctx, vctx);
        (v2, d1 + d2)
    }
}

/// Every structural rule of the command can run on it (see [`rule_ok`]).
pub open spec fn rules_runnable(ctx: CommandCtx, vctx: ValidationContext) -> bool {
    match ctx.cmd.structural_rules {
        Some(rules) => all_rules_ok(rules@, ctx, vctx),
        None => true,
    }
}

/// Every rule of `rules` can run on the command.
pub open spec fn all_rules_ok(rules: Seq<StructuralRule>, ctx: CommandCtx, vctx: ValidationContext) -> bool {
    forall|k: int| 0 <= k < rules.len() ==> rule_ok(#[trigger] rules[k], ctx, vctx)
}

/// Whether every structural rule of the command can run on it (see
/// [`rules_runnable`]).
pub fn semantic_rules_runnable(cmd_ctx: &CommandCtx, vctx: &ValidationContext) -> (r: bool)
    ensures
        r == rules_runnable(*cmd_ctx, *vctx),
{
    let rules = match &cmd_ctx.cmd.structural_rules {
        Some(rules) => rules,
        None => {
            return true;
        },
    };
    let mut i: usize = 0;
    while i < rules.len()
        invariant
            i <= rules@.len(),
            cmd_ctx.cmd.structural_rules == Some(*rules),
            forall|k: int| 0 <= k < i ==> rule_ok(#[trigger] rules@[k], *cmd_ctx, *vctx),
        decreases rules.len() - i,
    {
        let ok = match &rules[i] {
            StructuralRule::GfDataLength { compression_arg_index, declared_byte_count_arg_index, data_arg_index } => {
                gf_length_runnable(
                    cmd_ctx,
                    vctx,
                    *compression_arg_index,
                    *declared_byte_count_arg_index,
                    *data_arg_index,
                )
            },
            _ => true,
        };
        if !ok {
            assert(!rule_ok(rules@[i as int], *cmd_ctx, *vctx));
            assert(!all_rules_ok(rules@, *cmd_ctx, *vctx));
            return false;
        }
        i = i + 1;
    }
    true
}

/// Runs the structural rules the command declares, in order.
pub fn validate_structural_semantics(
    cmd_ctx: &CommandCtx,
    vctx: &ValidationContext,
    label_state: &mut LabelState,
    issues: &mut Vec<Diagnostic>,
)
    requires
        old(label_state).wf(),
        rules_runnable(*cmd_ctx, *vctx),
    ensures
        final(label_state).wf(),
        match cmd_ctx.cmd.structural_rules {
            Some(rules) => {
                &&& final(label_state)@ == spec_rules(old(label_state)@, rules@, rules@.len() as int, *cmd_ctx, *vctx).0
                &&& diags_view(final(issues)@) == diags_view(old(issues)@) + spec_rules(
                    old(label_state)@,
                    rules@,
                    rules@.len() as int,
                    *cmd_ctx,
                    *vctx,
                ).1
            },
            None => final(label_state)@ == old(label_state)@ && diags_view(final(issues)@) == diags_view(
                old(issues)@,
            ),
        },
{
    let cmd = cmd_ctx.cmd;
    match &cmd.structural_rules {
        Some(rules) => {
            let ghost v0 = label_state@;
            let ghost d0 = diags_view(issues@);
            let mut i: usize = 0;
            while i < rules.len()
                invariant
                    i <= rules@.len(),
                    label_state.wf(),
                    cmd_ctx.cmd.structural_rules == Some(*rules),
                    forall|k: int| 0 <= k < rules@.len() ==> rule_ok(#[trigger] rules@[k], *cmd_ctx, *vctx),
                    label_state@ == spec_rules(v0, rules@, i as int, *cmd_ctx, *vctx).0,
                    diags_view(issues@) == d0 + spec_rules(v0, rules@, i as int, *cmd_ctx, *vctx).1,
                decreases rules.len() - i,
            {
                let ghost dv = diags_view(issues@);
                run_semantic_rule(&rules[i], cmd_ctx, vctx, label_state, issues);
                i = i + 1;
                proof {
                    assert(diags_view(issues@) =~= d0 + spec_rules(v0, rules@, i as int, *cmd_ctx, *vctx).1);
                }
            }
        },
        None => {},
    }
}

/// A used font that is an ASCII upper-case letter or an ASCII digit is
/// built in: its use gets no finding, whatever fonts the label has loaded,
/// and leaves the label state as it was.
pub proof fn law_builtin_font_needs_no_load(
    reg: SeverityRegistry,
    v: LabelView,
    ctx: CommandCtx,
    ai: int,
    ch: char,
)
    requires
        arg_first_char(ctx.args@, ai) == Some(ch),
        ('A' <= ch <= 'Z') || ('0' <= ch <= '9'),
    ensures
        rule_font_reference(reg, v, ctx, FontReferenceAction::Validate, ai).1.len() == 0,
        rule_font_reference(reg, v, ctx, FontReferenceAction::Validate, ai).0 == v,
{
}

/// A used font that is neither an upper-case letter nor a digit, and has
/// not been loaded, gets exactly one unknown-font finding.
pub proof fn law_unloaded_font_is_reported(reg: SeverityRegistry, v: LabelView, ctx: CommandCtx, ai: int, ch: char)
    requires
        arg_first_char(ctx.args@, ai) == Some(ch),
        !(('A' <= ch <= 'Z') || ('0' <= ch <= '9')),
        !v.fonts.contains(ch),
    ensures
        rule_font_reference(reg, v, ctx, FontReferenceAction::Validate, ai).1.len() == 1,
        rule_font_reference(reg, v, ctx, FontReferenceAction::Validate, ai).1[0].0 == UNKNOWN_FONT@,
{
}

/// A font loaded with `^CW` may be used afterwards: loading it and then
/// using it gets no finding, whatever the font's character.
pub proof fn law_loaded_font_may_be_used(
    reg: SeverityRegistry,
    v: LabelView,
    load: CommandCtx,
    load_ai: int,
    use_ctx: CommandCtx,
    use_ai: int,
    ch: char,
)
    requires
        arg_first_char(load.args@, load_ai) == Some(ch),
        arg_first_char(use_ctx.args@, use_ai) == Some(ch),
    ensures
        ({
            let after = rule_font_reference(reg, v, load, FontReferenceAction::Register, load_ai).0;
            rule_font_reference(reg, after, use_ctx, FontReferenceAction::Validate, use_ai).1.len() == 0
        }),
{
    let after = rule_font_reference(reg, v, load, FontReferenceAction::Register, load_ai).0;
    if !v.fonts.contains(ch) {
        assert(v.fonts.push(ch)[v.fonts.len() as int] == ch);
        assert(after.fonts.contains(ch));
    }
}

/// Looking up a key absent before, after it was added with `x`, gives `x`.
proof fn lemma_lookup_pushed<T>(v: Seq<(Seq<char>, T)>, n: Seq<char>, x: T)
    requires
        lookup(v, n) is None,
    ensures
        lookup(v.push((n, x)), n) == Some(x),
    decreases v.len(),
{
    if v.len() > 0 {
        assert(v.push((n, x)).drop_first() =~= v.drop_first().push((n, x)));
        lemma_lookup_pushed(v.drop_first(), n, x);
    }
}

/// A field number used for the first time in a label gets no finding;
/// used again by a later command, it gets exactly one duplicate finding,
/// which names the node of its first use.
pub proof fn law_field_number_reused_is_reported(
    reg: SeverityRegistry,
    v: LabelView,
    first: CommandCtx,
    ai: int,
    again: CommandCtx,
    aj: int,
    n: Seq<char>,
)
    requires
        arg_value(first.args@, ai) == Some(n),
        arg_value(again.args@, aj) == Some(n),
        lookup(v.field_numbers, n) is None,
    ensures
        rule_field_number(reg, v, first, ai).1.len() == 0,
        ({
            let after = rule_field_number(reg, v, first, ai).0;
            let ds = rule_field_number(reg, after, again, aj).1;
            &&& ds.len() == 1
            &&& ds[0].0 == DUPLICATE_FIELD_NUMBER@
            &&& ds[0].2 == "Duplicate field number "@ + n + " (first used at node "@ + decimal(first.node_idx as nat)
                + ")"@
        }),
{
    lemma_lookup_pushed(v.field_numbers, n, first.node_idx);
}

/// Graphic data is checked against its declared byte count: with
/// compression `A` a finding exactly when its length is not twice the
/// count, with `B` exactly when it is not the count, and with any other
/// compression never.
pub proof fn law_gf_length_finding(
    reg: SeverityRegistry,
    ctx: CommandCtx,
    nodes: Seq<Node>,
    ci: int,
    di: int,
    dai: int,
    declared: nat,
)
    requires
        ctx.args@.len() > dai,
        arg_value(ctx.args@, dai) is Some,
        arg_unsigned(ctx.args@, di, usize::MAX as nat) == Some(declared),
    ensures
        ({
            let c = gf_compression(ctx, ci);
            let total = gf_total(ctx, nodes, ci, dai);
            rule_gf_data_length(reg, ctx, nodes, ci, di, dai).len() == if c == "A"@ {
                if total == 2 * declared {
                    0int
                } else {
                    1int
                }
            } else if c == "B"@ {
                if total == declared {
                    0int
                } else {
                    1int
                }
            } else {
                0int
            }
        }),
{
    reveal_strlit("A");
    reveal_strlit("B");
    assert("A"@[0] != "B"@[0]);
}

} // verus!
