//! Validation of a whole AST: each command of a label runs through the
//! argument, constraint, semantic, capability, placement and field checks
//! in order, with state carried from command to command and, for
//! session-scoped commands, from label to label; each label ends with the
//! checks for a field left open, the preflight and an empty label.

use crate::ast::{Ast, Label, Node};
use crate::command_args::{consume_default_from_refs, spec_command_args_diags, spec_consume, validate_command_args};
use crate::constraints::{opt_codes, opt_profile, spec_command_constraints, validate_command_constraints};
use crate::context::{CommandCtx, ValidationContext};
use crate::diag::{any_error, diags_view, has_error, DiagView, Diagnostic, SeverityRegistry};
use crate::label_state::{produced, LabelState, LabelView};
use crate::pipeline::{
    add_code, apply_effects_and_arity, build_field_membership, codes_upto, collect_label_codes,
    effects_and_arity_diags, emit_empty_label_diagnostic, emit_unclosed_field_diagnostic, enforce_placement,
    enforce_printer_gates, membership, node_code, run_label_preflight, spec_empty_label_diags,
    spec_first_command_span, spec_is_effect_producer, spec_placement_diags, spec_printer_gate_diags,
    spec_unclosed_diags, update_session_state, FieldMembership,
};
use crate::plan::{
    index_list, insert_code, is_trigger_flag, no_dups, spec_flags, spec_plan, spec_trigger_code, EntryFlag,
    LabelExecutionPlan, SemanticIndexView, EffectIndexView, ValidationPlanContext,
};
use crate::plan::{spec_producer_code, spec_semantic_code};
use crate::predicates::seq_has;
use crate::preflight::spec_preflight;
use crate::profile::Profile;
use crate::semantic::{rules_runnable, semantic_rules_runnable, spec_rules, validate_structural_semantics};
use crate::state::{no_values, DeviceState};
use crate::tables::{spec_cmd, spec_known, ParserTables};
use crate::text::str_eq;
use crate::tracker::{can_close_at, spec_process, spec_process_diags, FieldTracker, TrackerView, DEFAULT_INDICATOR};
use vstd::prelude::*;

verus! {

broadcast use vstd::seq::group_seq_axioms;

// ---------------------------------------------------------------------------
// The checks of a label as a fold over its nodes
// ---------------------------------------------------------------------------

/// What the checks of a label read and do not change: the severities, the
/// tables and planning indexes, the label's plan, the profile, the label's
/// nodes, and which field each node stands in with the codes of each field.
pub struct LabelEnvView {
    pub reg: SeverityRegistry,
    pub tables: ParserTables,
    pub plan_ctx: ValidationPlanContext,
    pub plan: LabelExecutionPlan,
    pub profile: Option<Profile>,
    pub nodes: Seq<Node>,
    pub field_ids: Seq<Option<usize>>,
    pub field_codes: Seq<Seq<String>>,
}

/// What the checks carry from command to command: the label state, the
/// field tracker, the codes seen in the label and in the current field,
/// and whether the node stands between `^XA` and `^XZ`.
pub struct CheckState {
    pub label: LabelView,
    pub tracker: TrackerView,
    pub seen: Seq<String>,
    pub seen_field: Seq<String>,
    pub inside: bool,
}

/// The state at the start of a label.
pub open spec fn initial_check_state() -> CheckState {
    CheckState {
        label: LabelView {
            producers: seq![],
            field_numbers: seq![],
            fonts: seq![],
            last_idx: seq![],
            consumed: seq![],
            has_explicit_pw: false,
            has_explicit_ll: false,
            gf_total_bytes: 0,
            values: no_values(),
        },
        tracker: TrackerView {
            open: false,
            has_fh: false,
            fh_indicator: DEFAULT_INDICATOR,
            has_fn: false,
            has_serial: false,
            start_idx: 0,
            barcodes: seq![],
        },
        seen: seq![],
        seen_field: seq![],
        inside: false,
    }
}

/// The codes of the field node `k` stands in, if any.
pub open spec fn scope_of(env: LabelEnvView, k: int) -> Option<Seq<String>> {
    scope_in(env.field_ids, env.field_codes, k)
}

/// The codes of the field node `k` stands in, from the field of each node
/// and the codes of each field.
pub open spec fn scope_in(ids: Seq<Option<usize>>, codes: Seq<Seq<String>>, k: int) -> Option<Seq<String>> {
    let id = if 0 <= k < ids.len() {
        ids[k]
    } else {
        None
    };
    match id {
        Some(fid) => if fid < codes.len() {
            Some(codes[fid as int])
        } else {
            None
        },
        None => None,
    }
}

/// The label state and findings of a command's structural semantics.
pub open spec fn spec_semantics(v: LabelView, c: CommandCtx, vc: ValidationContext) -> (LabelView, Seq<DiagView>) {
    match c.cmd.structural_rules {
        Some(rules) => spec_rules(v, rules@, rules@.len() as int, c, vc),
        None => (v, seq![]),
    }
}

/// The first half of a known command's checks: state effects and arity,
/// arguments, constraints, default sources and structural semantics (when
/// planned and able to run). Gives the label state, the codes seen in the
/// field so far, and the findings.
pub open spec fn step_checks(env: LabelEnvView, s: CheckState, c: CommandCtx, vc: ValidationContext) -> (
    LabelView,
    Seq<String>,
    Seq<DiagView>,
) {
    let cmd = *c.cmd;
    let f = spec_flags(env.plan_ctx, c.code@, cmd);
    let pk = if cmd.codes@.len() > 0 {
        cmd.codes@[0]@
    } else {
        c.code@
    };
    let sf0 = if f.opens_field {
        Seq::<String>::empty()
    } else {
        s.seen_field
    };
    let producer = spec_is_effect_producer(env.plan_ctx, c.code@, cmd.has_effects, env.plan);
    let d_eff = effects_and_arity_diags(env.reg, c, f, pk, producer, s.label.consumed);
    let l1 = if producer {
        produced(s.label, pk, c.node_idx, c.code@, c.args@)
    } else {
        s.label
    };
    let d_args = spec_command_args_diags(env.reg, c, env.profile, l1);
    let d_cons = spec_command_constraints(c, vc, s.seen, sf0, scope_of(env, c.node_idx as int));
    let l2 = spec_consume(l1, cmd);
    let sem = if (cmd.structural_rules is Some || env.plan.run_semantic_batch) && rules_runnable(c, vc) {
        spec_semantics(l2, c, vc)
    } else {
        (l2, seq![])
    };
    (sem.0, sf0, d_eff + d_args + d_cons + sem.1)
}

/// The second half of a known command's checks: printer capabilities,
/// placement, and its field, from the label state and field codes the
/// first half left.
pub open spec fn step_field(
    env: LabelEnvView,
    s: CheckState,
    code: String,
    c: CommandCtx,
    label: LabelView,
    sf0: Seq<String>,
) -> (CheckState, Seq<DiagView>) {
    let cmd = *c.cmd;
    let f = spec_flags(env.plan_ctx, c.code@, cmd);
    let d_gate = spec_printer_gate_diags(env.reg, c.code@, cmd, env.profile, c.span);
    let d_place = spec_placement_diags(env.reg, c.code@, cmd, s.inside, c.span);
    let on_field = env.plan.run_field_batch || f.opens_field || f.closes_field || f.field_data || f.requires_field
        || f.hex_escape_modifier || f.field_number || f.serialization;
    let t1 = if on_field {
        spec_process(s.tracker, f, c)
    } else {
        s.tracker
    };
    let d_field = if on_field {
        spec_process_diags(env.reg, s.tracker, f, c, env.nodes)
    } else {
        seq![]
    };
    let sf1 = if f.closes_field {
        Seq::<String>::empty()
    } else if t1.open || f.opens_field {
        add_code(sf0, code)
    } else {
        sf0
    };
    (CheckState { label, tracker: t1, seen: s.seen, seen_field: sf1, inside: s.inside }, d_gate + d_place + d_field)
}

/// The checks of one known command `code` with context `c` and `vc`, in
/// order: state effects and arity, arguments, constraints, default sources,
/// structural semantics (when planned and able to run), printer
/// capabilities, placement, and its field.
#[verifier::opaque]
pub open spec fn known_step(
    env: LabelEnvView,
    s: CheckState,
    code: String,
    c: CommandCtx,
    vc: ValidationContext,
) -> (CheckState, Seq<DiagView>) {
    let a = step_checks(env, s, c, vc);
    let b = step_field(env, s, code, c, a.0, a.1);
    (b.0, a.2 + b.1)
}

/// The context of a known command at node `k`: its code, arguments, entry,
/// span and index.
pub open spec fn ctx_for(c: CommandCtx, t: ParserTables, nd: Node, k: int) -> bool {
    match nd {
        Node::Command { code, args, span } => spec_known(t, code@) ==> {
            &&& c.code@ == code@
            &&& c.args@ == args@
            &&& spec_cmd(t, code@) == Some(*c.cmd)
            &&& c.span == Some(span)
            &&& c.node_idx == k
        },
        _ => true,
    }
}

/// The shared context of a label's checks: its nodes, its codes, the
/// profile and the severities.
pub open spec fn vctx_for(vc: ValidationContext, env: LabelEnvView) -> bool {
    &&& vc.label_nodes@ == env.nodes
    &&& vc.label_codes@ == codes_upto(env.nodes, env.nodes.len() as int)
    &&& opt_profile(vc.profile) == env.profile
    &&& *vc.severities == env.reg
}

/// One node: `^XA` and `^XZ` open and close the format, a known command
/// runs its checks, and every command joins the codes seen in the label
/// (and in the field, while one is open).
pub open spec fn node_step(env: LabelEnvView, s: CheckState, nd: Node, c: CommandCtx, vc: ValidationContext) -> (
    CheckState,
    Seq<DiagView>,
) {
    match nd {
        Node::Command { code, .. } => {
            let inside = if code@ == "^XA"@ {
                true
            } else if code@ == "^XZ"@ {
                false
            } else {
                s.inside
            };
            let s1 = CheckState { inside, ..s };
            let r = if spec_known(env.tables, code@) {
                known_step(env, s1, code, c, vc)
            } else {
                (s1, seq![])
            };
            let s2 = r.0;
            (
                CheckState {
                    seen: add_code(s2.seen, code),
                    seen_field: if s2.tracker.open {
                        add_code(s2.seen_field, code)
                    } else {
                        s2.seen_field
                    },
                    ..s2
                },
                r.1,
            )
        },
        _ => (s, seq![]),
    }
}

/// The state and findings after the first `k` nodes.
pub open spec fn label_fold(env: LabelEnvView, cs: Seq<CommandCtx>, vs: Seq<ValidationContext>, k: int) -> (
    CheckState,
    Seq<DiagView>,
)
    decreases k,
{
    if k <= 0 {
        (initial_check_state(), seq![])
    } else {
        let (s, d) = label_fold(env, cs, vs, k - 1);
        let (s2, d2) = node_step(env, s, env.nodes[k - 1], cs[k - 1], vs[k - 1]);
        (s2, d + d2)
    }
}

/// A command whose code the tables know.
pub open spec fn known_command(t: ParserTables, nd: Node) -> bool {
    node_code(nd) matches Some(c) && spec_known(t, c)
}

/// A command other than `^XA` and `^XZ`.
pub open spec fn printable(nd: Node) -> bool {
    node_code(nd) matches Some(c) && c != "^XA"@ && c != "^XZ"@
}

/// Some of the first `k` nodes is printable.
pub open spec fn printable_upto(nodes: Seq<Node>, k: int) -> bool {
    exists|j: int| 0 <= j < k && printable(#[trigger] nodes[j])
}

/// The findings of a label: those of its nodes in order, then a field left
/// open, then the preflight checks its plan asks for, then an empty label.
pub open spec fn label_findings(env: LabelEnvView, cs: Seq<CommandCtx>, vs: Seq<ValidationContext>) -> Seq<DiagView> {
    let n = env.nodes.len() as int;
    let (s, d) = label_fold(env, cs, vs, n);
    d + spec_unclosed_diags(env.reg, env.nodes, s.tracker) + (if !env.plan.run_preflight_gf_memory
        && !env.plan.run_preflight_missing_dimensions {
        seq![]
    } else {
        spec_preflight(
            env.reg,
            env.profile,
            s.label,
            env.plan.run_preflight_gf_memory,
            env.plan.run_preflight_missing_dimensions,
            spec_first_command_span(env.nodes),
        )
    }) + spec_empty_label_diags(env.reg, env.nodes, printable_upto(env.nodes, n))
}

/// The environment of a label's checks.
pub open spec fn label_env(
    reg: SeverityRegistry,
    t: ParserTables,
    ctx: ValidationPlanContext,
    profile: Option<Profile>,
    nodes: Seq<Node>,
) -> LabelEnvView {
    let n = nodes.len() as int;
    let m = membership(nodes, t, ctx, n);
    LabelEnvView {
        reg,
        tables: t,
        plan_ctx: ctx,
        plan: spec_plan(ctx, codes_upto(nodes, n), profile),
        profile,
        nodes,
        field_ids: m.0,
        field_codes: m.1,
    }
}

/// `part` is what the checks of a label with `nodes` find, for contexts of
/// its known commands that hold its codes and the shared context.
pub open spec fn label_findings_are(
    part: Seq<DiagView>,
    reg: SeverityRegistry,
    t: ParserTables,
    ctx: ValidationPlanContext,
    profile: Option<Profile>,
    nodes: Seq<Node>,
) -> bool {
    let env = label_env(reg, t, ctx, profile, nodes);
    exists|cs: Seq<CommandCtx>, vs: Seq<ValidationContext>|
        {
            &&& cs.len() == nodes.len()
            &&& vs.len() == nodes.len()
            &&& forall|k: int| 0 <= k < nodes.len() ==> ctx_for(#[trigger] cs[k], t, nodes[k], k)
            &&& forall|k: int| 0 <= k < nodes.len() && known_command(t, nodes[k]) ==> vctx_for(#[trigger] vs[k], env)
            &&& #[trigger] label_findings(env, cs, vs) == part
        }
}

proof fn lemma_can_close_later(v: TrackerView, i: int, j: int, n: int)
    requires
        can_close_at(v, i, n),
        i <= j <= n,
    ensures
        can_close_at(v, j, n),
{
}

// ---------------------------------------------------------------------------
// One command
// ---------------------------------------------------------------------------

/// What the commands of one label share.
struct LabelEnv<'a, 'b> {
    plan_ctx: &'a ValidationPlanContext,
    plan: &'b LabelExecutionPlan,
    profile: Option<&'a Profile>,
    membership: &'b FieldMembership,
    severities: &'a SeverityRegistry,
}

/// The codes of the field a node stands in, if any.
fn field_scope<'a>(m: &'a FieldMembership, node_idx: usize) -> (r: Option<&'a Vec<String>>)
    ensures
        opt_codes(r) == scope_in(m.field_id_by_node@, m.field_codes@.map_values(|v: Vec<String>| v@), node_idx as int),
{
    if node_idx < m.field_id_by_node.len() {
        match m.field_id_by_node[node_idx] {
            Some(fid) => if fid < m.field_codes.len() {
                Some(&m.field_codes[fid])
            } else {
                None
            },
            None => None,
        }
    } else {
        None
    }
}

/// The state the checks of one command start from, as plain values.
pub open spec fn state_of(
    label_state: LabelView,
    tracker: TrackerView,
    seen: Seq<String>,
    seen_field: Seq<String>,
    inside: bool,
) -> CheckState {
    CheckState { label: label_state, tracker, seen, seen_field, inside }
}

/// The first half of a known command's checks (see [`step_checks`]).
#[verifier::spinoff_prover]
#[verifier::rlimit(60)]
fn run_step_checks<'a, 'b, 'c>(
    env: &LabelEnv<'a, 'b>,
    ghost_env: Ghost<LabelEnvView>,
    cmd_ctx: &CommandCtx<'a>,
    vctx: &ValidationContext<'c>,
    inside_format_bounds: bool,
    seen_codes: &Vec<String>,
    seen_field_codes: &mut Vec<String>,
    label_state: &mut LabelState,
    issues: &mut Vec<Diagnostic>,
)
    requires
        ghost_env@.reg == *env.severities,
        ghost_env@.plan_ctx == *env.plan_ctx,
        ghost_env@.plan == *env.plan,
        ghost_env@.profile == opt_profile(env.profile),
        ghost_env@.field_ids == env.membership.field_id_by_node@,
        ghost_env@.field_codes == env.membership.field_codes@.map_values(|v: Vec<String>| v@),
        *vctx.severities == *env.severities,
        vctx.profile == env.profile,
        old(label_state).wf(),
        no_dups(old(seen_field_codes)@),
    ensures
        final(label_state).wf(),
        no_dups(final(seen_field_codes)@),
        ({
            let r = step_checks(
                ghost_env@,
                state_of(old(label_state)@, TrackerView { open: false, has_fh: false, fh_indicator: 0, has_fn: false, has_serial: false, start_idx: 0, barcodes: seq![] }, seen_codes@, old(seen_field_codes)@, inside_format_bounds),
                *cmd_ctx,
                *vctx,
            );
            &&& final(label_state)@ == r.0
            &&& final(seen_field_codes)@ == r.1
            &&& diags_view(final(issues)@) == diags_view(old(issues)@) + r.2
        }),
{
    let ghost d0 = diags_view(issues@);
    let plan_ctx = env.plan_ctx;
    let cmd = cmd_ctx.cmd;
    let flags = plan_ctx.resolve_structural_flags(cmd_ctx.code, cmd);
    let producer_key: &str = if cmd.codes.len() > 0 {
        cmd.codes[0].as_str()
    } else {
        cmd_ctx.code
    };
    if flags.opens_field {
        seen_field_codes.clear();
    }
    apply_effects_and_arity(cmd_ctx, flags, producer_key, plan_ctx, env.plan, env.severities, label_state, issues);
    let ghost d1 = diags_view(issues@);
    validate_command_args(cmd_ctx, vctx, label_state, issues);
    let ghost d2 = diags_view(issues@);
    let scope = field_scope(env.membership, cmd_ctx.node_idx);
    validate_command_constraints(cmd_ctx, vctx, seen_codes, seen_field_codes, scope, issues);
    let ghost d3 = diags_view(issues@);
    consume_default_from_refs(cmd_ctx, label_state);
    let ghost l2 = label_state@;
    if plan_ctx.should_run_structural_semantics(cmd_ctx.code, cmd.structural_rules.is_some(), env.plan)
        && semantic_rules_runnable(cmd_ctx, vctx) {
        validate_structural_semantics(cmd_ctx, vctx, label_state, issues);
    }
    proof {
        let sem = if (cmd.structural_rules is Some || env.plan.run_semantic_batch) && rules_runnable(*cmd_ctx, *vctx) {
            spec_semantics(l2, *cmd_ctx, *vctx)
        } else {
            (l2, seq![])
        };
        assert(label_state@ == sem.0);
        assert(diags_view(issues@) =~= d3 + sem.1);
        assert(diags_view(issues@) =~= d0 + (d1.skip(d0.len() as int) + d2.skip(d1.len() as int) + d3.skip(d2.len() as int) + sem.1));
    }
}

/// The second half of a known command's checks (see [`step_field`]).
#[verifier::spinoff_prover]
#[verifier::rlimit(60)]
fn run_step_field<'a, 'b, 'c>(
    env: &LabelEnv<'a, 'b>,
    ghost_env: Ghost<LabelEnvView>,
    code: &'a String,
    cmd_ctx: &CommandCtx<'a>,
    vctx: &ValidationContext<'c>,
    inside_format_bounds: bool,
    seen_field_codes: &mut Vec<String>,
    tracker: &mut FieldTracker<'a>,
    issues: &mut Vec<Diagnostic>,
)
    requires
        cmd_ctx.node_idx < vctx.label_nodes@.len(),
        ghost_env@.reg == *env.severities,
        ghost_env@.plan_ctx == *env.plan_ctx,
        ghost_env@.plan == *env.plan,
        ghost_env@.profile == opt_profile(env.profile),
        ghost_env@.nodes == vctx.label_nodes@,
        *vctx.severities == *env.severities,
        no_dups(old(seen_field_codes)@),
        can_close_at(old(tracker)@, cmd_ctx.node_idx as int, vctx.label_nodes@.len() as int),
    ensures
        no_dups(final(seen_field_codes)@),
        can_close_at(final(tracker)@, cmd_ctx.node_idx as int, vctx.label_nodes@.len() as int),
        forall|l: LabelView, seen: Seq<String>| {
            let r = #[trigger] step_field(
                ghost_env@,
                state_of(l, old(tracker)@, seen, Seq::<String>::empty(), inside_format_bounds),
                *code,
                *cmd_ctx,
                l,
                old(seen_field_codes)@,
            );
            &&& final(tracker)@ == r.0.tracker
            &&& final(seen_field_codes)@ == r.0.seen_field
            &&& diags_view(final(issues)@) == diags_view(old(issues)@) + r.1
        },
{
    let ghost d0 = diags_view(issues@);
    let cmd = cmd_ctx.cmd;
    let flags = env.plan_ctx.resolve_structural_flags(cmd_ctx.code, cmd);
    enforce_printer_gates(cmd_ctx.code, cmd, env.profile, cmd_ctx.span, env.severities, issues);
    let ghost d1 = diags_view(issues@);
    enforce_placement(cmd_ctx.code, cmd, inside_format_bounds, cmd_ctx.span, env.severities, issues);
    let ghost d2 = diags_view(issues@);
    if env.plan.run_field_batch || flags.is_field_related() {
        tracker.process_command(cmd_ctx, vctx, flags, issues);
    }
    if flags.closes_field {
        seen_field_codes.clear();
    } else if tracker.open || flags.opens_field {
        insert_code(seen_field_codes, code);
    }
    proof {
        assert forall|l: LabelView, seen: Seq<String>| {
            let r = #[trigger] step_field(
                ghost_env@,
                state_of(l, old(tracker)@, seen, Seq::<String>::empty(), inside_format_bounds),
                *code,
                *cmd_ctx,
                l,
                old(seen_field_codes)@,
            );
            &&& tracker@ == r.0.tracker
            &&& seen_field_codes@ == r.0.seen_field
            &&& diags_view(issues@) == d0 + r.1
        } by {
            let r = step_field(
                ghost_env@,
                state_of(l, old(tracker)@, seen, Seq::<String>::empty(), inside_format_bounds),
                *code,
                *cmd_ctx,
                l,
                old(seen_field_codes)@,
            );
            assert(seen_field_codes@ =~= r.0.seen_field);
            assert(diags_view(issues@) =~= d0 + r.1);
        }
    }
}

/// Runs the checks of one known command (see [`known_step`]).
fn check_known_command<'a, 'b, 'c>(
    env: &LabelEnv<'a, 'b>,
    ghost_env: Ghost<LabelEnvView>,
    code: &'a String,
    cmd_ctx: &CommandCtx<'a>,
    vctx: &ValidationContext<'c>,
    inside_format_bounds: bool,
    seen_codes: &Vec<String>,
    seen_field_codes: &mut Vec<String>,
    label_state: &mut LabelState,
    tracker: &mut FieldTracker<'a>,
    issues: &mut Vec<Diagnostic>,
)
    requires
        cmd_ctx.node_idx < vctx.label_nodes@.len(),
        ghost_env@.reg == *env.severities,
        ghost_env@.plan_ctx == *env.plan_ctx,
        ghost_env@.plan == *env.plan,
        ghost_env@.profile == opt_profile(env.profile),
        ghost_env@.nodes == vctx.label_nodes@,
        ghost_env@.field_ids == env.membership.field_id_by_node@,
        ghost_env@.field_codes == env.membership.field_codes@.map_values(|v: Vec<String>| v@),
        *vctx.severities == *env.severities,
        vctx.profile == env.profile,
        old(label_state).wf(),
        no_dups(old(seen_field_codes)@),
        can_close_at(old(tracker)@, cmd_ctx.node_idx as int, vctx.label_nodes@.len() as int),
    ensures
        final(label_state).wf(),
        no_dups(final(seen_field_codes)@),
        can_close_at(final(tracker)@, cmd_ctx.node_idx as int, vctx.label_nodes@.len() as int),
        ({
            let r = known_step(
                ghost_env@,
                state_of(old(label_state)@, old(tracker)@, seen_codes@, old(seen_field_codes)@, inside_format_bounds),
                *code,
                *cmd_ctx,
                *vctx,
            );
            &&& final(label_state)@ == r.0.label
            &&& final(tracker)@ == r.0.tracker
            &&& final(seen_field_codes)@ == r.0.seen_field
            &&& r.0.seen == seen_codes@
            &&& r.0.inside == inside_format_bounds
            &&& diags_view(final(issues)@) == diags_view(old(issues)@) + r.1
        }),
{
    let ghost d0 = diags_view(issues@);
    let ghost s0 = state_of(label_state@, tracker@, seen_codes@, seen_field_codes@, inside_format_bounds);
    run_step_checks(env, ghost_env, cmd_ctx, vctx, inside_format_bounds, seen_codes, seen_field_codes, label_state, issues);
    let ghost d1 = diags_view(issues@);
    let ghost sf0 = seen_field_codes@;
    let ghost l = label_state@;
    run_step_field(env, ghost_env, code, cmd_ctx, vctx, inside_format_bounds, seen_field_codes, tracker, issues);
    proof {
        reveal(known_step);
        let a = step_checks(ghost_env@, s0, *cmd_ctx, *vctx);
        let a0 = step_checks(
            ghost_env@,
            state_of(s0.label, TrackerView { open: false, has_fh: false, fh_indicator: 0, has_fn: false, has_serial: false, start_idx: 0, barcodes: seq![] }, s0.seen, s0.seen_field, inside_format_bounds),
            *cmd_ctx,
            *vctx,
        );
        assert(a == a0);
        let b = step_field(ghost_env@, s0, *code, *cmd_ctx, a.0, a.1);
        let b0 = step_field(
            ghost_env@,
            state_of(l, s0.tracker, s0.seen, Seq::<String>::empty(), inside_format_bounds),
            *code,
            *cmd_ctx,
            l,
            sf0,
        );
        assert(b.0.tracker == b0.0.tracker);
        assert(b.0.seen_field == b0.0.seen_field);
        assert(b.1 == b0.1);
        assert(diags_view(issues@) =~= d0 + (a.2 + b.1));
    }
}

// ---------------------------------------------------------------------------
// One label
// ---------------------------------------------------------------------------

/// Validates one label: each node in order (see [`node_step`]), then a
/// field left open at the end of the label, the preflight checks the plan
/// asks for, and an empty label (see [`label_findings`]). Session state in
/// `device_state` carries over to the next label.
pub fn validate_label<'a>(
    label: &'a Label,
    tables: &'a ParserTables,
    plan_ctx: &'a ValidationPlanContext,
    profile: Option<&'a Profile>,
    severities: &'a SeverityRegistry,
    device_state: &mut DeviceState,
    issues: &mut Vec<Diagnostic>,
)
    requires
        no_dups(old(device_state).session_producers@),
    ensures
        no_dups(final(device_state).session_producers@),
        exists|part: Seq<DiagView>|
            #[trigger] label_findings_are(part, *severities, *tables, *plan_ctx, opt_profile(profile), label.nodes@)
                && diags_view(final(issues)@) == diags_view(old(issues)@) + part,
{
    let ghost d0 = diags_view(issues@);
    let ghost nodes = label.nodes@;
    let label_codes = collect_label_codes(label);
    let plan = plan_ctx.plan_for_label(&label_codes, profile);
    let fm = build_field_membership(label, tables, plan_ctx);
    let ghost genv = label_env(*severities, *tables, *plan_ctx, opt_profile(profile), nodes);
    proof {
        assert(fm.field_codes@.map_values(|v: Vec<String>| v@) =~= genv.field_codes);
    }
    let env = LabelEnv { plan_ctx, plan: &plan, profile, membership: &fm, severities };
    let mut label_state = LabelState::new();
    let mut tracker: FieldTracker<'a> = FieldTracker::new();
    let mut seen_codes: Vec<String> = Vec::new();
    let mut seen_field_codes: Vec<String> = Vec::new();
    let mut inside = false;
    let mut has_printable = false;
    let ghost mut cs: Seq<CommandCtx> = seq![];
    let ghost mut vs: Seq<ValidationContext> = seq![];
    proof {
        assert(label_state@.producers =~= seq![]);
        assert(label_state@.field_numbers =~= seq![]);
        assert(label_state@.last_idx =~= seq![]);
        assert(label_state@.consumed =~= seq![]);
        assert(label_state@.fonts =~= seq![]);
        assert(tracker@.barcodes =~= seq![]);
        assert(label_state@ == initial_check_state().label);
        assert(tracker@ == initial_check_state().tracker);
    }
    let n = label.nodes.len();
    let mut k: usize = 0;
    while k < n
        invariant
            k <= n,
            n == nodes.len(),
            nodes == label.nodes@,
            env.plan_ctx == plan_ctx,
            env.severities == severities,
            env.profile == profile,
            *env.plan == genv.plan,
            env.membership.field_id_by_node@ == genv.field_ids,
            env.membership.field_codes@.map_values(|v: Vec<String>| v@) == genv.field_codes,
            genv == label_env(*severities, *tables, *plan_ctx, opt_profile(profile), nodes),
            label_codes@ == codes_upto(nodes, n as int),
            label_state.wf(),
            no_dups(device_state.session_producers@),
            no_dups(seen_codes@),
            no_dups(seen_field_codes@),
            can_close_at(tracker@, k as int, n as int),
            cs.len() == k,
            vs.len() == k,
            forall|j: int| 0 <= j < k ==> ctx_for(#[trigger] cs[j], *tables, nodes[j], j),
            forall|j: int| 0 <= j < k && known_command(*tables, nodes[j]) ==> vctx_for(#[trigger] vs[j], genv),
            label_fold(genv, cs, vs, k as int).0 == state_of(label_state@, tracker@, seen_codes@, seen_field_codes@, inside),
            diags_view(issues@) == d0 + label_fold(genv, cs, vs, k as int).1,
            has_printable == printable_upto(nodes, k as int),
        decreases n - k,
    {
        let ghost before = diags_view(issues@);
        let ghost s_before = state_of(label_state@, tracker@, seen_codes@, seen_field_codes@, inside);
        let ghost mut c_k: CommandCtx = vstd::pervasive::arbitrary();
        let ghost mut v_k: ValidationContext = vstd::pervasive::arbitrary();
        match &label.nodes[k] {
            Node::Command { code, args, span } => {
                let is_xa = str_eq(code.as_str(), "^XA");
                let is_xz = str_eq(code.as_str(), "^XZ");
                if is_xa {
                    inside = true;
                } else if is_xz {
                    inside = false;
                }
                if !(is_xa || is_xz) {
                    has_printable = true;
                }
                match tables.cmd_by_code(code.as_str()) {
                    Some(cmd) => {
                        let cmd_ctx = CommandCtx {
                            code: code.as_str(),
                            args: args.as_slice(),
                            cmd,
                            span: Some(*span),
                            node_idx: k,
                        };
                        let vctx = ValidationContext {
                            profile,
                            label_nodes: label.nodes.as_slice(),
                            label_codes: &label_codes,
                            device_state: &*device_state,
                            severities,
                        };
                        proof {
                            c_k = cmd_ctx;
                            v_k = vctx;
                        }
                        check_known_command(
                            &env,
                            Ghost(genv),
                            code,
                            &cmd_ctx,
                            &vctx,
                            inside,
                            &seen_codes,
                            &mut seen_field_codes,
                            &mut label_state,
                            &mut tracker,
                            issues,
                        );
                        let producer_key: &str = if cmd.codes.len() > 0 {
                            cmd.codes[0].as_str()
                        } else {
                            code.as_str()
                        };
                        update_session_state(code.as_str(), args.as_slice(), cmd, producer_key, device_state);
                    },
                    None => {},
                }
                let ghost s_mid = state_of(label_state@, tracker@, seen_codes@, seen_field_codes@, inside);
                insert_code(&mut seen_codes, code);
                if tracker.open {
                    insert_code(&mut seen_field_codes, code);
                }
                proof {
                    let s1 = CheckState { inside, ..s_before };
                    let r = if spec_known(genv.tables, code@) {
                        known_step(genv, s1, *code, c_k, v_k)
                    } else {
                        (s1, seq![])
                    };
                    assert(r.0 == s_mid);
                    assert(node_step(genv, s_before, nodes[k as int], c_k, v_k).0 == state_of(
                        label_state@,
                        tracker@,
                        seen_codes@,
                        seen_field_codes@,
                        inside,
                    ));
                    assert(diags_view(issues@) =~= before + node_step(genv, s_before, nodes[k as int], c_k, v_k).1);
                }
            },
            _ => {},
        }
        proof {
            let cs2 = cs.push(c_k);
            let vs2 = vs.push(v_k);
            assert(cs2.take(k as int) =~= cs);
            assert(vs2.take(k as int) =~= vs);
            assert(cs.take(k as int) =~= cs);
            assert(vs.take(k as int) =~= vs);
            lemma_fold_prefix(genv, cs2, vs2, cs, vs, k as int);
            lemma_can_close_later(tracker@, k as int, k + 1, n as int);
            if printable_upto(nodes, k + 1) && !printable_upto(nodes, k as int) {
                let j = choose|j: int| 0 <= j < k + 1 && printable(#[trigger] nodes[j]);
                assert(j == k);
            }
            if printable(nodes[k as int]) {
                assert(printable_upto(nodes, k + 1));
            }
            if printable_upto(nodes, k as int) {
                let j = choose|j: int| 0 <= j < k && printable(#[trigger] nodes[j]);
                assert(printable_upto(nodes, k + 1));
            }
            let step = node_step(genv, s_before, nodes[k as int], c_k, v_k);
            assert(label_fold(genv, cs2, vs2, k + 1) == (step.0, label_fold(genv, cs, vs, k as int).1 + step.1));
            assert(step.0 == state_of(label_state@, tracker@, seen_codes@, seen_field_codes@, inside));
            assert(diags_view(issues@) =~= d0 + label_fold(genv, cs2, vs2, k + 1).1);
            assert forall|j: int| 0 <= j < k + 1 implies ctx_for(#[trigger] cs2[j], *tables, nodes[j], j) by {
                if j < k {
                    assert(cs2[j] == cs[j]);
                }
            }
            assert forall|j: int| 0 <= j < k + 1 && known_command(*tables, nodes[j]) implies vctx_for(#[trigger] vs2[j], genv) by {
                if j < k {
                    assert(vs2[j] == vs[j]);
                }
            }
            cs = cs2;
            vs = vs2;
        }
        k = k + 1;
    }
    let ghost fold = label_fold(genv, cs, vs, n as int);
    emit_unclosed_field_diagnostic(label, &tracker, severities, issues);
    run_label_preflight(label, profile, &*device_state, &label_codes, &plan, &label_state, severities, issues);
    emit_empty_label_diagnostic(label, has_printable, severities, issues);
    proof {
        let part = label_findings(genv, cs, vs);
        assert(diags_view(issues@) =~= d0 + part);
        assert(label_findings_are(part, *severities, *tables, *plan_ctx, opt_profile(profile), nodes));
    }
}

/// Folds that agree on the contexts of the first `k` nodes agree on the
/// first `k` nodes.
proof fn lemma_fold_prefix(
    env: LabelEnvView,
    cs: Seq<CommandCtx>,
    vs: Seq<ValidationContext>,
    cs0: Seq<CommandCtx>,
    vs0: Seq<ValidationContext>,
    k: int,
)
    requires
        0 <= k <= cs.len(),
        k <= vs.len(),
        cs.take(k) == cs0.take(k),
        vs.take(k) == vs0.take(k),
        k <= cs0.len(),
        k <= vs0.len(),
    ensures
        label_fold(env, cs, vs, k) == label_fold(env, cs0, vs0, k),
    decreases k,
{
    if k > 0 {
        assert(cs.take(k - 1) =~= cs.take(k).take(k - 1));
        assert(cs0.take(k - 1) =~= cs0.take(k).take(k - 1));
        assert(vs.take(k - 1) =~= vs.take(k).take(k - 1));
        assert(vs0.take(k - 1) =~= vs0.take(k).take(k - 1));
        lemma_fold_prefix(env, cs, vs, cs0, vs0, k - 1);
        assert(cs[k - 1] == cs.take(k)[k - 1]);
        assert(cs0[k - 1] == cs0.take(k)[k - 1]);
        assert(vs[k - 1] == vs.take(k)[k - 1]);
        assert(vs0[k - 1] == vs0.take(k)[k - 1]);
    }
}

// ---------------------------------------------------------------------------
// A whole AST
// ---------------------------------------------------------------------------

/// The result of validating an AST.
#[derive(Debug, Clone)]
pub struct ValidationResult {
    /// No finding is an error (warnings and notes are allowed).
    pub ok: bool,
    /// The findings, label by label.
    pub issues: Vec<Diagnostic>,
}

/// The findings of the labels one after the other.
pub open spec fn flatten_findings(parts: Seq<Seq<DiagView>>) -> Seq<DiagView>
    decreases parts.len(),
{
    if parts.len() == 0 {
        seq![]
    } else {
        flatten_findings(parts.drop_last()) + parts.last()
    }
}

/// `parts` holds the findings of each label, in order.
pub open spec fn findings_per_label(
    parts: Seq<Seq<DiagView>>,
    reg: SeverityRegistry,
    t: ParserTables,
    ctx: ValidationPlanContext,
    profile: Option<Profile>,
    labels: Seq<Label>,
) -> bool {
    &&& parts.len() == labels.len()
    &&& forall|i: int|
        0 <= i < parts.len() ==> label_findings_are(#[trigger] parts[i], reg, t, ctx, profile, labels[i].nodes@)
}

/// The planning indexes of the tables: the codes of commands with
/// structural rules, of commands with state effects, and of each
/// structural role.
pub open spec fn plans_for(ctx: ValidationPlanContext, t: ParserTables) -> bool {
    &&& ctx.semantic_index matches Some(v) && forall|x: Seq<char>|
        seq_has(v.semantic_codes@, x) <==> spec_semantic_code(t, x)
    &&& ctx.effect_index matches Some(v) && forall|x: Seq<char>| seq_has(v.producer_codes@, x) <==> spec_producer_code(t, x)
    &&& ctx.structural_index matches Some(v) && forall|f: EntryFlag, x: Seq<char>|
        is_trigger_flag(f) ==> (#[trigger] seq_has(index_list(v, f), x) <==> spec_trigger_code(t, f, x))
}

/// Validates an AST against the spec tables and an optional printer
/// profile: the labels in order, with session state carried from label to
/// label and the printer's resolution taken from the profile.
pub fn validate_with_profile(
    ast: &Ast,
    tables: &ParserTables,
    profile: Option<&Profile>,
    severities: &SeverityRegistry,
) -> (r: ValidationResult)
    ensures
        r.ok == !has_error(r.issues@),
        exists|ctx: ValidationPlanContext, parts: Seq<Seq<DiagView>>|
            plans_for(ctx, *tables) && #[trigger] findings_per_label(
                parts,
                *severities,
                *tables,
                ctx,
                opt_profile(profile),
                ast.labels@,
            ) && diags_view(r.issues@) == flatten_findings(parts),
{
    let plan_ctx = ValidationPlanContext::from_tables(tables);
    let mut device_state = DeviceState::default();
    match profile {
        Some(p) => {
            device_state.dpi = Some(p.dpi);
        },
        None => {},
    }
    let mut issues: Vec<Diagnostic> = Vec::new();
    let ghost mut parts: Seq<Seq<DiagView>> = seq![];
    let mut i: usize = 0;
    while i < ast.labels.len()
        invariant
            i <= ast.labels@.len(),
            plans_for(plan_ctx, *tables),
            no_dups(device_state.session_producers@),
            findings_per_label(parts, *severities, *tables, plan_ctx, opt_profile(profile), ast.labels@.take(i as int)),
            diags_view(issues@) == flatten_findings(parts),
        decreases ast.labels.len() - i,
    {
        let ghost before = diags_view(issues@);
        validate_label(&ast.labels[i], tables, &plan_ctx, profile, severities, &mut device_state, &mut issues);
        proof {
            let part = choose|part: Seq<DiagView>|
                #[trigger] label_findings_are(
                    part,
                    *severities,
                    *tables,
                    plan_ctx,
                    opt_profile(profile),
                    ast.labels@[i as int].nodes@,
                ) && diags_view(issues@) == before + part;
            let next = parts.push(part);
            assert(next.drop_last() =~= parts);
            assert(diags_view(issues@) == flatten_findings(next));
            let labels1 = ast.labels@.take(i + 1);
            assert forall|j: int| 0 <= j < next.len() implies label_findings_are(
                #[trigger] next[j],
                *severities,
                *tables,
                plan_ctx,
                opt_profile(profile),
                labels1[j].nodes@,
            ) by {
                if j < i {
                    assert(labels1[j] == ast.labels@.take(i as int)[j]);
                }
            }
            parts = next;
        }
        i = i + 1;
    }
    proof {
        assert(ast.labels@.take(ast.labels@.len() as int) =~= ast.labels@);
    }
    let ok = !any_error(&issues);
    ValidationResult { ok, issues }
}

/// Validates an AST against the spec tables without a printer profile.
pub fn validate(ast: &Ast, tables: &ParserTables, severities: &SeverityRegistry) -> (r: ValidationResult)
    ensures
        r.ok == !has_error(r.issues@),
        exists|ctx: ValidationPlanContext, parts: Seq<Seq<DiagView>>|
            plans_for(ctx, *tables) && #[trigger] findings_per_label(parts, *severities, *tables, ctx, None, ast.labels@)
                && diags_view(r.issues@) == flatten_findings(parts),
{
    validate_with_profile(ast, tables, None, severities)
}

} // verus!
