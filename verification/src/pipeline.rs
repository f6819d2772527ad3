//! Label-level validation steps: the codes a label uses, which field each
//! node belongs to, the per-command checks of arity, redundant state,
//! printer capabilities and placement, session state, and the findings
//! made at the end of a label (a field left open, an empty label).

use crate::ast::{ArgSlot, Label, Node};
use crate::context::{CommandCtx, ValidationContext};
use crate::preflight::{spec_preflight, validate_preflight};
use crate::diag::{
    diag1, diag3, diag4, diags_view, push_diagnostic, spec_severity, DiagView, Diagnostic, SeverityRegistry, Span,
    ARITY, EMPTY_LABEL, FIELD_NOT_CLOSED, HOST_COMMAND_IN_LABEL, PRINTER_GATE, REDUNDANT_STATE,
};
use crate::label_state::{lookup, pair_get, produced, LabelState};
use crate::constraints::opt_profile;
use crate::plan::{insert_code, no_dups, spec_flags, LabelExecutionPlan, StructuralFlags, ValidationPlanContext};
use crate::predicates::seq_has;
use crate::profile::{resolve_gate, spec_resolve_gate, Profile};
use crate::state::{spec_apply_mu, DeviceState};
use crate::tables::{spec_cmd, spec_known, CommandEntry, CommandScope, ParserTables, Plane};
use crate::text::{chars_of, decimal, msg2, msg3, owned, str_eq, usize_to_decimal, append_str};
use crate::tracker::{FieldTracker, TrackerView};
use vstd::prelude::*;

verus! {

broadcast use vstd::seq::group_seq_axioms;

// ---------------------------------------------------------------------------
// Spans and codes of a label
// ---------------------------------------------------------------------------

/// The code of a command node.
pub open spec fn node_code(nd: Node) -> Option<Seq<char>> {
    match nd {
        Node::Command { code, .. } => Some(code@),
        _ => None,
    }
}

/// The span of a command node.
pub open spec fn command_span_of(nd: Node) -> Option<Span> {
    match nd {
        Node::Command { span, .. } => Some(span),
        _ => None,
    }
}

/// The span of the label's first node, when it is a command.
pub open spec fn spec_first_command_span(nodes: Seq<Node>) -> Option<Span> {
    if nodes.len() > 0 {
        command_span_of(nodes[0])
    } else {
        None
    }
}

/// The span of the label's last node, when it is a command.
pub open spec fn spec_last_command_span(nodes: Seq<Node>) -> Option<Span> {
    if nodes.len() > 0 {
        command_span_of(nodes.last())
    } else {
        None
    }
}

fn command_span(nd: &Node) -> (r: Option<Span>)
    ensures
        r == command_span_of(*nd),
{
    match nd {
        Node::Command { span, .. } => Some(*span),
        _ => None,
    }
}

/// The span of the label's first node, when it is a command.
pub fn first_command_span(label: &Label) -> (r: Option<Span>)
    ensures
        r == spec_first_command_span(label.nodes@),
{
    if label.nodes.len() > 0 {
        command_span(&label.nodes[0])
    } else {
        None
    }
}

/// The span of the label's last node, when it is a command.
pub fn last_command_span(label: &Label) -> (r: Option<Span>)
    ensures
        r == spec_last_command_span(label.nodes@),
{
    let n = label.nodes.len();
    if n > 0 {
        command_span(&label.nodes[n - 1])
    } else {
        None
    }
}

/// Some command node of the label has code `x`.
pub open spec fn label_has_code(nodes: Seq<Node>, x: Seq<char>) -> bool {
    exists|i: int| 0 <= i < nodes.len() && node_code(#[trigger] nodes[i]) == Some(x)
}

/// The command codes of the first `k` nodes, each once, in order of first use.
pub open spec fn codes_upto(nodes: Seq<Node>, k: int) -> Seq<String>
    decreases k,
{
    if k <= 0 {
        seq![]
    } else {
        match nodes[k - 1] {
            Node::Command { code, .. } => add_code(codes_upto(nodes, k - 1), code),
            _ => codes_upto(nodes, k - 1),
        }
    }
}

/// The set of command codes in the label, each once, in order of first use.
pub fn collect_label_codes(label: &Label) -> (r: Vec<String>)
    ensures
        no_dups(r@),
        forall|x: Seq<char>| #[trigger] seq_has(r@, x) <==> label_has_code(label.nodes@, x),
        r@ == codes_upto(label.nodes@, label.nodes@.len() as int),
{
    let nodes = &label.nodes;
    let mut r: Vec<String> = Vec::new();
    let mut i: usize = 0;
    while i < nodes.len()
        invariant
            i <= nodes@.len(),
            no_dups(r@),
            forall|x: Seq<char>| #[trigger] seq_has(r@, x) <==> label_has_code(nodes@.take(i as int), x),
            r@ == codes_upto(nodes@, i as int),
        decreases nodes.len() - i,
    {
        let ghost before = r@;
        match &nodes[i] {
            Node::Command { code, .. } => {
                insert_code(&mut r, code);
            },
            _ => {},
        }
        proof {
            let t0 = nodes@.take(i as int);
            let t1 = nodes@.take(i + 1);
            assert forall|x: Seq<char>| #[trigger] seq_has(r@, x) <==> label_has_code(t1, x) by {
                if label_has_code(t1, x) {
                    let k = choose|k: int| 0 <= k < t1.len() && node_code(#[trigger] t1[k]) == Some(x);
                    if k < i {
                        assert(t0[k] == t1[k]);
                    }
                }
                if label_has_code(t0, x) {
                    let k = choose|k: int| 0 <= k < t0.len() && node_code(#[trigger] t0[k]) == Some(x);
                    assert(t1[k] == t0[k]);
                }
                assert(t1[i as int] == nodes@[i as int]);
            }
        }
        i = i + 1;
    }
    assert(nodes@.take(nodes@.len() as int) =~= nodes@);
    r
}

// ---------------------------------------------------------------------------
// Field membership
// ---------------------------------------------------------------------------

/// Which field each node of a label belongs to, and the codes of each field.
pub struct FieldMembership {
    /// For each node, the index of its field, if it stands in one.
    pub field_id_by_node: Vec<Option<usize>>,
    /// For each field, the codes of its commands, each once.
    pub field_codes: Vec<Vec<String>>,
}

/// The codes of a field with `code` added unless it is there already.
pub open spec fn add_code(v: Seq<String>, code: String) -> Seq<String> {
    if seq_has(v, code@) {
        v
    } else {
        v.push(code)
    }
}

/// The membership state after nodes `0..k`: the field of each node so far,
/// the codes of each field so far (in order of first use), and the field
/// currently open.
pub open spec fn membership(
    nodes: Seq<Node>,
    tables: ParserTables,
    ctx: ValidationPlanContext,
    k: int,
) -> (Seq<Option<usize>>, Seq<Seq<String>>, Option<usize>)
    decreases k,
{
    if k <= 0 {
        (seq![], seq![], None)
    } else {
        let (ids, codes, cur) = membership(nodes, tables, ctx, k - 1);
        match nodes[k - 1] {
            Node::Command { code, .. } => if spec_known(tables, code@) {
                let f = spec_flags(ctx, code@, spec_cmd(tables, code@)->0);
                let (codes1, cur1) = if f.opens_field {
                    (codes.push(seq![]), Some(codes.len() as usize))
                } else {
                    (codes, cur)
                };
                let (ids2, codes2) = match cur1 {
                    Some(fid) => (ids.push(Some(fid)), codes1.update(fid as int, add_code(codes1[fid as int], code))),
                    None => (ids.push(None), codes1),
                };
                (ids2, codes2, if f.closes_field {
                    None
                } else {
                    cur1
                })
            } else {
                match cur {
                    Some(fid) => (ids.push(Some(fid)), codes.update(fid as int, add_code(codes[fid as int], code)), cur),
                    None => (ids.push(None), codes, cur),
                }
            },
            _ => (ids.push(None), codes, cur),
        }
    }
}

/// Assigns each node of the label to the field it stands in (from a field
/// origin to the field separator; nodes outside fields have none) and
/// collects the codes of each field. Unknown commands belong to the field
/// they stand in too.
pub fn build_field_membership(label: &Label, tables: &ParserTables, plan_ctx: &ValidationPlanContext) -> (r:
    FieldMembership)
    ensures
        r.field_id_by_node@ == membership(label.nodes@, *tables, *plan_ctx, label.nodes@.len() as int).0,
        r.field_codes@.len() == membership(label.nodes@, *tables, *plan_ctx, label.nodes@.len() as int).1.len(),
        forall|j: int|
            0 <= j < r.field_codes@.len() ==> no_dups(#[trigger] r.field_codes@[j]@) && r.field_codes@[j]@
                == membership(label.nodes@, *tables, *plan_ctx, label.nodes@.len() as int).1[j],
{
    let nodes = &label.nodes;
    let mut ids: Vec<Option<usize>> = Vec::new();
    let mut codes: Vec<Vec<String>> = Vec::new();
    let mut current: Option<usize> = None;
    let mut i: usize = 0;
    while i < nodes.len()
        invariant
            i <= nodes@.len(),
            ids@ == membership(nodes@, *tables, *plan_ctx, i as int).0,
            codes@.len() == membership(nodes@, *tables, *plan_ctx, i as int).1.len(),
            forall|j: int|
                0 <= j < codes@.len() ==> no_dups(#[trigger] codes@[j]@) && codes@[j]@ == membership(
                    nodes@,
                    *tables,
                    *plan_ctx,
                    i as int,
                ).1[j],
            current == membership(nodes@, *tables, *plan_ctx, i as int).2,
            current matches Some(fid) ==> fid < codes@.len(),
        decreases nodes.len() - i,
    {
        let ghost m = membership(nodes@, *tables, *plan_ctx, i as int);
        match &nodes[i] {
            Node::Command { code, .. } => {
                match tables.cmd_by_code(code.as_str()) {
                    Some(cmd) => {
                        let flags = plan_ctx.resolve_structural_flags(code.as_str(), cmd);
                        if flags.opens_field {
                            let new_id = codes.len();
                            codes.push(Vec::new());
                            current = Some(new_id);
                            proof {
                                assert(codes@[new_id as int]@ =~= Seq::<String>::empty());
                            }
                        }
                        let ghost codes1 = codes@;
                        match current {
                            Some(fid) => {
                                ids.push(Some(fid));
                                add_field_code(&mut codes, fid, code);
                            },
                            None => {
                                ids.push(None);
                            },
                        }
                        if flags.closes_field {
                            current = None;
                        }
                    },
                    None => {
                        match current {
                            Some(fid) => {
                                ids.push(Some(fid));
                                add_field_code(&mut codes, fid, code);
                            },
                            None => {
                                ids.push(None);
                            },
                        }
                    },
                }
            },
            _ => {
                ids.push(None);
            },
        }
        i = i + 1;
        proof {
            let m2 = membership(nodes@, *tables, *plan_ctx, i as int);
            assert(ids@ =~= m2.0);
            assert forall|j: int| 0 <= j < codes@.len() implies no_dups(#[trigger] codes@[j]@) && codes@[j]@ == m2.1[j] by {
                assert(codes@[j]@ =~= m2.1[j]);
            }
        }
    }
    FieldMembership { field_id_by_node: ids, field_codes: codes }
}

/// Adds `code` to the codes of field `fid`.
fn add_field_code(codes: &mut Vec<Vec<String>>, fid: usize, code: &String)
    requires
        fid < old(codes)@.len(),
        no_dups(old(codes)@[fid as int]@),
    ensures
        final(codes)@.len() == old(codes)@.len(),
        forall|j: int| 0 <= j < old(codes)@.len() && j != fid ==> final(codes)@[j] == old(codes)@[j],
        no_dups(final(codes)@[fid as int]@),
        final(codes)@[fid as int]@ == add_code(old(codes)@[fid as int]@, *code),
{
    let mut set: Vec<String> = Vec::new();
    std::mem::swap(&mut set, &mut codes[fid]);
    let ghost before = set@;
    insert_code(&mut set, code);
    codes.set(fid, set);
    proof {
        assert(codes@[fid as int]@ =~= add_code(before, *code));
    }
}

// ---------------------------------------------------------------------------
// Per-command checks
// ---------------------------------------------------------------------------

/// Whether the command produces state in this plan: it declares effects,
/// or the plan runs the effect batch and the effect index lists it.
pub open spec fn spec_is_effect_producer(
    ctx: ValidationPlanContext,
    code: Seq<char>,
    has_effects: bool,
    plan: LabelExecutionPlan,
) -> bool {
    has_effects || (plan.run_effect_batch && match ctx.effect_index {
        Some(idx) => seq_has(idx.producer_codes@, code),
        None => false,
    })
}

/// The findings of the arity and redundant-state checks of a command.
pub open spec fn effects_and_arity_diags(
    reg: SeverityRegistry,
    ctx: CommandCtx,
    flags: StructuralFlags,
    producer_key: Seq<char>,
    producer: bool,
    consumed: Seq<(Seq<char>, bool)>,
) -> Seq<DiagView> {
    (if producer && lookup(consumed, producer_key) == Some(false) {
        seq![
            (
                REDUNDANT_STATE@,
                spec_severity(reg, REDUNDANT_STATE@),
                ctx.code@ + " overrides a previous "@ + producer_key
                    + " without any command consuming the earlier value"@,
                ctx.span,
                Some(seq![("command"@, ctx.code@), ("producer"@, producer_key)]),
            ),
        ]
    } else {
        seq![]
    }) + (if !flags.field_data && ctx.args@.len() > ctx.cmd.arity {
        seq![
            (
                ARITY@,
                spec_severity(reg, ARITY@),
                ctx.code@ + " has too many arguments ("@ + decimal(ctx.args@.len()) + ">"@ + decimal(
                    ctx.cmd.arity as nat,
                ) + ")"@,
                ctx.span,
                Some(
                    seq![
                        ("actual"@, decimal(ctx.args@.len())),
                        ("arity"@, decimal(ctx.cmd.arity as nat)),
                        ("command"@, ctx.code@),
                    ],
                ),
            ),
        ]
    } else {
        seq![]
    })
}

/// A producer that overrides a value no command consumed is reported, and
/// its new value recorded; a command with more arguments than its arity is
/// reported (field data aside). The values producers set are numbers with
/// units and are not tracked here.
pub fn apply_effects_and_arity(
    cmd_ctx: &CommandCtx,
    structural_flags: StructuralFlags,
    producer_key: &str,
    plan_ctx: &ValidationPlanContext,
    plan: &LabelExecutionPlan,
    severities: &SeverityRegistry,
    label_state: &mut LabelState,
    issues: &mut Vec<Diagnostic>,
)
    requires
        old(label_state).wf(),
    ensures
        final(label_state).wf(),
        diags_view(final(issues)@) == diags_view(old(issues)@) + effects_and_arity_diags(
            *severities,
            *cmd_ctx,
            structural_flags,
            producer_key@,
            spec_is_effect_producer(*plan_ctx, cmd_ctx.code@, cmd_ctx.cmd.has_effects, *plan),
            old(label_state)@.consumed,
        ),
        spec_is_effect_producer(*plan_ctx, cmd_ctx.code@, cmd_ctx.cmd.has_effects, *plan) ==> {
            &&& forall|x: Seq<char>| #[trigger] seq_has(final(label_state).producers_seen@, x) <==> (seq_has(
                old(label_state).producers_seen@,
                x,
            ) || x == producer_key@)
            &&& forall|q: Seq<char>| #[trigger] lookup(final(label_state)@.last_idx, q) == if q == producer_key@ {
                Some(cmd_ctx.node_idx)
            } else {
                lookup(old(label_state)@.last_idx, q)
            }
            &&& forall|q: Seq<char>| #[trigger] lookup(final(label_state)@.consumed, q) == if q == producer_key@ {
                Some(false)
            } else {
                lookup(old(label_state)@.consumed, q)
            }
        },
        !spec_is_effect_producer(*plan_ctx, cmd_ctx.code@, cmd_ctx.cmd.has_effects, *plan) ==> final(label_state)@
            == old(label_state)@,
        final(label_state)@.field_numbers == old(label_state)@.field_numbers,
        final(label_state)@.fonts == old(label_state)@.fonts,
        final(label_state)@.has_explicit_pw == old(label_state)@.has_explicit_pw,
        final(label_state)@.has_explicit_ll == old(label_state)@.has_explicit_ll,
        final(label_state)@.gf_total_bytes == old(label_state)@.gf_total_bytes,
        final(label_state)@ == if spec_is_effect_producer(*plan_ctx, cmd_ctx.code@, cmd_ctx.cmd.has_effects, *plan) {
            produced(old(label_state)@, producer_key@, cmd_ctx.node_idx, cmd_ctx.code@, cmd_ctx.args@)
        } else {
            old(label_state)@
        },
{
    let ghost d0 = diags_view(issues@);
    let is_effect_producer = plan_ctx.is_effect_producer(cmd_ctx.code, cmd_ctx.cmd.has_effects, plan);
    if is_effect_producer {
        match pair_get(&label_state.producer_consumed, producer_key) {
            Some(consumed) => {
                if !consumed {
                    let mut msg = msg3(cmd_ctx.code, " overrides a previous ", producer_key);
                    append_str(&mut msg, " without any command consuming the earlier value");
                    let d = crate::diag::diag2(
                        REDUNDANT_STATE,
                        severities.severity_of(REDUNDANT_STATE),
                        msg,
                        cmd_ctx.span,
                        "command",
                        owned(cmd_ctx.code),
                        "producer",
                        owned(producer_key),
                    );
                    push_diagnostic(issues, d);
                }
            },
            None => {},
        }
        label_state.record_producer(producer_key, cmd_ctx.node_idx);
        label_state.values.apply_producer(cmd_ctx.code, cmd_ctx.args);
    }
    let ghost d1 = diags_view(issues@);
    let n_args = cmd_ctx.args.len();
    if !structural_flags.field_data && n_args as u64 > cmd_ctx.cmd.arity as u64 {
        let arity = cmd_ctx.cmd.arity as usize;
        let mut msg = msg2(cmd_ctx.code, " has too many arguments (");
        append_str(&mut msg, usize_to_decimal(n_args).as_str());
        append_str(&mut msg, ">");
        append_str(&mut msg, usize_to_decimal(arity).as_str());
        append_str(&mut msg, ")");
        let d = diag3(
            ARITY,
            severities.severity_of(ARITY),
            msg,
            cmd_ctx.span,
            "actual",
            usize_to_decimal(n_args),
            "arity",
            usize_to_decimal(arity),
            "command",
            owned(cmd_ctx.code),
        );
        push_diagnostic(issues, d);
    }
    proof {
        assert(diags_view(issues@) =~= d0 + effects_and_arity_diags(
            *severities,
            *cmd_ctx,
            structural_flags,
            producer_key@,
            spec_is_effect_producer(*plan_ctx, cmd_ctx.code@, cmd_ctx.cmd.has_effects, *plan),
            old(label_state)@.consumed,
        ));
    }
}

/// The findings for the capabilities a command needs that the profile's
/// features deny, for gates `0..k`.
pub open spec fn gate_diags(
    reg: SeverityRegistry,
    code: Seq<char>,
    gates: Seq<String>,
    k: int,
    p: Profile,
    features: Seq<(String, bool)>,
    dspan: Option<Span>,
) -> Seq<DiagView>
    decreases k,
{
    if k <= 0 {
        seq![]
    } else {
        gate_diags(reg, code, gates, k - 1, p, features, dspan) + if spec_resolve_gate(features, gates[k - 1]@)
            == Some(false) {
            seq![
                (
                    PRINTER_GATE@,
                    spec_severity(reg, PRINTER_GATE@),
                    code + " requires '"@ + gates[k - 1]@ + "' capability not available in profile '"@ + p.id@
                        + "'"@,
                    dspan,
                    Some(
                        seq![
                            ("command"@, code),
                            ("gate"@, gates[k - 1]@),
                            ("level"@, "command"@),
                            ("profile"@, p.id@),
                        ],
                    ),
                ),
            ]
        } else {
            seq![]
        }
    }
}

/// The printer-gate findings of a command under a profile.
pub open spec fn spec_printer_gate_diags(
    reg: SeverityRegistry,
    code: Seq<char>,
    cmd: CommandEntry,
    profile: Option<Profile>,
    dspan: Option<Span>,
) -> Seq<DiagView> {
    match (cmd.printer_gates, profile) {
        (Some(gates), Some(p)) => match p.features {
            Some(fs) => gate_diags(reg, code, gates@, gates@.len() as int, p, fs@, dspan),
            None => seq![],
        },
        _ => seq![],
    }
}

/// Reports each capability the command needs that the profile's features
/// say the printer lacks.
pub fn enforce_printer_gates(
    code: &str,
    cmd: &CommandEntry,
    profile: Option<&Profile>,
    dspan: Option<Span>,
    severities: &SeverityRegistry,
    issues: &mut Vec<Diagnostic>,
)
    ensures
        diags_view(final(issues)@) == diags_view(old(issues)@) + spec_printer_gate_diags(
            *severities,
            code@,
            *cmd,
            match profile {
                Some(p) => Some(*p),
                None => None,
            },
            dspan,
        ),
{
    let ghost d0 = diags_view(issues@);
    assert(d0 + seq![] =~= d0);
    let gates = match &cmd.printer_gates {
        Some(g) => g,
        None => {
            return;
        },
    };
    let p = match profile {
        Some(p) => p,
        None => {
            return;
        },
    };
    let features = match &p.features {
        Some(f) => f,
        None => {
            return;
        },
    };
    let mut i: usize = 0;
    while i < gates.len()
        invariant
            i <= gates@.len(),
            cmd.printer_gates == Some(*gates),
            p.features == Some(*features),
            diags_view(issues@) == d0 + gate_diags(*severities, code@, gates@, i as int, *p, features@, dspan),
        decreases gates.len() - i,
    {
        let gate = &gates[i];
        if resolve_gate(features, &chars_of(gate.as_str())) == Some(false) {
            let mut msg = msg3(code, " requires '", gate.as_str());
            append_str(&mut msg, "' capability not available in profile '");
            append_str(&mut msg, p.id.as_str());
            append_str(&mut msg, "'");
            let d = diag4(
                PRINTER_GATE,
                severities.severity_of(PRINTER_GATE),
                msg,
                dspan,
                "command",
                owned(code),
                "gate",
                owned(gate.as_str()),
                "level",
                owned("command"),
                "profile",
                owned(p.id.as_str()),
            );
            push_diagnostic(issues, d);
        }
        i = i + 1;
        proof {
            assert(diags_view(issues@) =~= d0 + gate_diags(*severities, code@, gates@, i as int, *p, features@, dspan));
        }
    }
}

/// The name of a plane as the findings report it.
pub open spec fn plane_name(p: Option<Plane>) -> Seq<char> {
    match p {
        Some(Plane::Format) => "format"@,
        Some(Plane::Device) => "device"@,
        Some(Plane::Host) => "host"@,
        Some(Plane::Config) => "config"@,
        None => "unknown"@,
    }
}

fn plane_text(p: Option<Plane>) -> (r: &'static str)
    ensures
        r@ == plane_name(p),
{
    match p {
        Some(Plane::Format) => "format",
        Some(Plane::Device) => "device",
        Some(Plane::Host) => "host",
        Some(Plane::Config) => "config",
        None => "unknown",
    }
}

/// Whether a command may not stand inside a label: its placement says so,
/// or, without a placement rule, it is a host or device command.
pub open spec fn banned_inside(cmd: CommandEntry) -> bool {
    match cmd.placement {
        Some(pl) => match pl.allowed_inside_label {
            Some(flag) => !flag,
            None => cmd.plane == Some(Plane::Host) || cmd.plane == Some(Plane::Device),
        },
        None => cmd.plane == Some(Plane::Host) || cmd.plane == Some(Plane::Device),
    }
}

/// Whether a command may not stand outside a label.
pub open spec fn banned_outside(cmd: CommandEntry) -> bool {
    match cmd.placement {
        Some(pl) => pl.allowed_outside_label == Some(false),
        None => false,
    }
}

/// The placement findings of a command inside or outside a label
/// (`^XA` and `^XZ` themselves are exempt).
pub open spec fn spec_placement_diags(
    reg: SeverityRegistry,
    code: Seq<char>,
    cmd: CommandEntry,
    inside: bool,
    dspan: Option<Span>,
) -> Seq<DiagView> {
    let exempt = code == "^XA"@ || code == "^XZ"@;
    let ctx = Some(seq![("command"@, code), ("plane"@, plane_name(cmd.plane))]);
    (if inside && !exempt && banned_inside(cmd) {
        seq![
            (
                HOST_COMMAND_IN_LABEL@,
                spec_severity(reg, HOST_COMMAND_IN_LABEL@),
                code + " should not appear inside a label (^XA/^XZ)"@,
                dspan,
                ctx,
            ),
        ]
    } else {
        seq![]
    }) + (if !inside && !exempt && banned_outside(cmd) {
        seq![
            (
                HOST_COMMAND_IN_LABEL@,
                spec_severity(reg, HOST_COMMAND_IN_LABEL@),
                code + " should not appear outside a label (^XA/^XZ)"@,
                dspan,
                ctx,
            ),
        ]
    } else {
        seq![]
    })
}

/// Reports a command that stands inside a label but may not (host and
/// device commands by default), or outside a label but may not.
pub fn enforce_placement(
    code: &str,
    cmd: &CommandEntry,
    inside_format_bounds: bool,
    dspan: Option<Span>,
    severities: &SeverityRegistry,
    issues: &mut Vec<Diagnostic>,
)
    ensures
        diags_view(final(issues)@) == diags_view(old(issues)@) + spec_placement_diags(
            *severities,
            code@,
            *cmd,
            inside_format_bounds,
            dspan,
        ),
{
    let ghost d0 = diags_view(issues@);
    let exempt = str_eq(code, "^XA") || str_eq(code, "^XZ");
    let host_or_device = match cmd.plane {
        Some(Plane::Host) => true,
        Some(Plane::Device) => true,
        _ => false,
    };
    let not_inside = match cmd.placement {
        Some(pl) => match pl.allowed_inside_label {
            Some(flag) => !flag,
            None => host_or_device,
        },
        None => host_or_device,
    };
    if inside_format_bounds && !exempt && not_inside {
        let d = diag2_plane(code, cmd, " should not appear inside a label (^XA/^XZ)", dspan, severities);
        push_diagnostic(issues, d);
    }
    let not_outside = match cmd.placement {
        Some(pl) => match pl.allowed_outside_label {
            Some(flag) => !flag,
            None => false,
        },
        None => false,
    };
    if !inside_format_bounds && !exempt && not_outside {
        let d = diag2_plane(code, cmd, " should not appear outside a label (^XA/^XZ)", dspan, severities);
        push_diagnostic(issues, d);
    }
    proof {
        assert(diags_view(issues@) =~= d0 + spec_placement_diags(*severities, code@, *cmd, inside_format_bounds, dspan));
    }
}

fn diag2_plane(code: &str, cmd: &CommandEntry, tail: &str, dspan: Option<Span>, severities: &SeverityRegistry) -> (d:
    Diagnostic)
    ensures
        crate::diag::diag_view(d) == (
            HOST_COMMAND_IN_LABEL@,
            spec_severity(*severities, HOST_COMMAND_IN_LABEL@),
            code@ + tail@,
            dspan,
            Some(seq![("command"@, code@), ("plane"@, plane_name(cmd.plane))]),
        ),
{
    crate::diag::diag2(
        HOST_COMMAND_IN_LABEL,
        severities.severity_of(HOST_COMMAND_IN_LABEL),
        msg2(code, tail),
        dspan,
        "command",
        owned(code),
        "plane",
        owned(plane_text(cmd.plane)),
    )
}

/// A session-scoped command updates the device state: `^MU` sets the units
/// and resolution, and the producer is remembered for the session.
pub fn update_session_state(
    code: &str,
    args: &[ArgSlot],
    cmd: &CommandEntry,
    producer_key: &str,
    device_state: &mut DeviceState,
)
    requires
        no_dups(old(device_state).session_producers@),
    ensures
        no_dups(final(device_state).session_producers@),
        cmd.scope != Some(CommandScope::Session) ==> *final(device_state) == *old(device_state),
        cmd.scope == Some(CommandScope::Session) ==> {
            let mid = if code@ == "^MU"@ {
                spec_apply_mu(*old(device_state), args@)
            } else {
                *old(device_state)
            };
            &&& final(device_state).units == mid.units
            &&& final(device_state).dpi == mid.dpi
            &&& forall|x: Seq<char>| #[trigger] seq_has(final(device_state).session_producers@, x) <==> (seq_has(
                old(device_state).session_producers@,
                x,
            ) || x == producer_key@)
        },
{
    match cmd.scope {
        Some(CommandScope::Session) => {
            if str_eq(code, "^MU") {
                device_state.apply_mu(args);
            }
            insert_code(&mut device_state.session_producers, &owned(producer_key));
        },
        _ => {},
    }
}

// ---------------------------------------------------------------------------
// End of label
// ---------------------------------------------------------------------------

/// The finding for a field still open at the end of the label, reported at
/// the label's last command, with the code that opened the field.
pub open spec fn spec_unclosed_diags(reg: SeverityRegistry, nodes: Seq<Node>, t: TrackerView) -> Seq<DiagView> {
    if !t.open {
        seq![]
    } else {
        seq![
            (
                FIELD_NOT_CLOSED@,
                spec_severity(reg, FIELD_NOT_CLOSED@),
                "field opened but never closed with ^FS before end of label"@,
                spec_last_command_span(nodes),
                if 0 <= t.start_idx < nodes.len() && node_code(nodes[t.start_idx]) is Some {
                    Some(seq![("command"@, node_code(nodes[t.start_idx])->0)])
                } else {
                    None
                },
            ),
        ]
    }
}

/// Reports a field left open at the end of the label.
pub fn emit_unclosed_field_diagnostic(
    label: &Label,
    field_tracker: &FieldTracker,
    severities: &SeverityRegistry,
    issues: &mut Vec<Diagnostic>,
)
    ensures
        diags_view(final(issues)@) == diags_view(old(issues)@) + spec_unclosed_diags(
            *severities,
            label.nodes@,
            field_tracker@,
        ),
{
    let ghost d0 = diags_view(issues@);
    if !field_tracker.open {
        assert(d0 + seq![] =~= d0);
        return;
    }
    let dspan = last_command_span(label);
    let msg = owned("field opened but never closed with ^FS before end of label");
    let d = if field_tracker.start_idx < label.nodes.len() {
        match &label.nodes[field_tracker.start_idx] {
            Node::Command { code, .. } => diag1(
                FIELD_NOT_CLOSED,
                severities.severity_of(FIELD_NOT_CLOSED),
                msg,
                dspan,
                "command",
                owned(code.as_str()),
            ),
            _ => Diagnostic::new(FIELD_NOT_CLOSED, severities.severity_of(FIELD_NOT_CLOSED), msg, dspan),
        }
    } else {
        Diagnostic::new(FIELD_NOT_CLOSED, severities.severity_of(FIELD_NOT_CLOSED), msg, dspan)
    };
    push_diagnostic(issues, d);
    assert(diags_view(issues@) =~= d0 + spec_unclosed_diags(*severities, label.nodes@, field_tracker@));
}

/// The finding for a label with no command besides `^XA` and `^XZ`,
/// reported at its first command.
pub open spec fn spec_empty_label_diags(reg: SeverityRegistry, nodes: Seq<Node>, has_printable: bool) -> Seq<DiagView> {
    if has_printable {
        seq![]
    } else {
        seq![
            (
                EMPTY_LABEL@,
                spec_severity(reg, EMPTY_LABEL@),
                "Empty label (no commands between ^XA and ^XZ)"@,
                spec_first_command_span(nodes),
                None,
            ),
        ]
    }
}

/// Reports an empty label.
pub fn emit_empty_label_diagnostic(
    label: &Label,
    has_printable: bool,
    severities: &SeverityRegistry,
    issues: &mut Vec<Diagnostic>,
)
    ensures
        diags_view(final(issues)@) == diags_view(old(issues)@) + spec_empty_label_diags(
            *severities,
            label.nodes@,
            has_printable,
        ),
{
    let ghost d0 = diags_view(issues@);
    if has_printable {
        assert(d0 + seq![] =~= d0);
        return;
    }
    let d = Diagnostic::new(
        EMPTY_LABEL,
        severities.severity_of(EMPTY_LABEL),
        owned("Empty label (no commands between ^XA and ^XZ)"),
        first_command_span(label),
    );
    push_diagnostic(issues, d);
    assert(diags_view(issues@) =~= d0 + spec_empty_label_diags(*severities, label.nodes@, has_printable));
}

/// The preflight checks of a label, run when the plan asks for one of
/// them, reported at the label's first command.
pub fn run_label_preflight(
    label: &Label,
    profile: Option<&Profile>,
    device_state: &DeviceState,
    label_codes: &Vec<String>,
    plan: &LabelExecutionPlan,
    label_state: &LabelState,
    severities: &SeverityRegistry,
    issues: &mut Vec<Diagnostic>,
)
    ensures
        diags_view(final(issues)@) == diags_view(old(issues)@) + if !plan.run_preflight_gf_memory
            && !plan.run_preflight_missing_dimensions {
            seq![]
        } else {
            spec_preflight(
                *severities,
                opt_profile(profile),
                label_state@,
                plan.run_preflight_gf_memory,
                plan.run_preflight_missing_dimensions,
                spec_first_command_span(label.nodes@),
            )
        },
{
    if !plan.run_preflight_gf_memory && !plan.run_preflight_missing_dimensions {
        assert(diags_view(issues@) + seq![] =~= diags_view(issues@));
        return;
    }
    let vctx = ValidationContext {
        profile,
        label_nodes: label.nodes.as_slice(),
        label_codes,
        device_state,
        severities,
    };
    validate_preflight(
        &vctx,
        label_state,
        plan.run_preflight_gf_memory,
        plan.run_preflight_missing_dimensions,
        first_command_span(label),
        issues,
    );
}

} // verus!
