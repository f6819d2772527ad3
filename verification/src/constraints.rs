//! Declarative command constraints: ordering, required and incompatible
//! commands, empty field data and notes, each turned into diagnostics.

use crate::ast::{ArgSlot, Node};
use crate::context::{CommandCtx, ValidationContext};
use crate::diag::{
    ctx1, ctx_push, ctx_view, diag3, diag_view, diags_view, push_diagnostic, DiagView, Diagnostic, Severity, Span,
    EMPTY_FIELD_DATA, INCOMPATIBLE_COMMAND, NOTE, ORDER_AFTER, ORDER_BEFORE, REQUIRED_COMMAND,
};
use crate::field::{map_constraint_sev, sev_of};
use crate::predicates::{accepted, seq_has, any_target_chars, evaluate_note_when_expression, spec_any_target, spec_note_when, strip_prefix};
use crate::profile::Profile;
use crate::state::arg_value;
use crate::tables::{CommandEntry, CommandScope, Constraint, ConstraintKind, ConstraintScope, ConstraintSeverity, NoteAudience};
use crate::text::{chars_of, owned, starts_with, string_from_chars, trim, trim_chars};
use vstd::prelude::*;
use vstd::string::*;

verus! {

broadcast use vstd::seq::group_seq_axioms;

/// The severity of a constraint's finding: its own, else the command's
/// default, else a warning.
pub open spec fn spec_map_sev(sev: Option<ConstraintSeverity>, default: Option<ConstraintSeverity>) -> Severity {
    match sev {
        Some(s) => sev_of(s),
        None => match default {
            Some(d) => sev_of(d),
            None => Severity::Warn,
        },
    }
}

/// The severity of a constraint's finding (see [`spec_map_sev`]).
pub fn map_sev(sev: Option<ConstraintSeverity>, default: Option<ConstraintSeverity>) -> (r: Severity)
    ensures
        r == spec_map_sev(sev, default),
{
    if let Some(s) = sev {
        return map_constraint_sev(s);
    }
    if let Some(d) = default {
        return map_constraint_sev(d);
    }
    Severity::Warn
}

/// The name of a scope in diagnostic contexts.
pub open spec fn scope_text(s: ConstraintScope) -> Seq<char> {
    if s == ConstraintScope::Field {
        "field"@
    } else {
        "label"@
    }
}

/// The scope of an ordering constraint or a note: its own, else field scope
/// for field commands, else label scope.
pub open spec fn order_scope(c: Constraint, cmd: CommandEntry) -> ConstraintScope {
    match c.scope {
        Some(s) => s,
        None => if cmd.scope == Some(CommandScope::Field) {
            ConstraintScope::Field
        } else {
            ConstraintScope::Label
        },
    }
}

/// Whether field data with content follows node `i`, before the next command.
pub open spec fn trailing_content(nodes: Seq<Node>, i: int) -> bool
    decreases nodes.len() - i,
{
    if i < 0 || i >= nodes.len() {
        false
    } else {
        match nodes[i] {
            Node::FieldData { content, .. } => if content@.len() > 0 {
                true
            } else {
                trailing_content(nodes, i + 1)
            },
            Node::Command { .. } => false,
            _ => trailing_content(nodes, i + 1),
        }
    }
}

/// A finding with a four-entry order/requires/incompatible context.
pub open spec fn scoped_diag(
    id: Seq<char>,
    sev: Severity,
    msg: Seq<char>,
    span: Option<Span>,
    code: Seq<char>,
    kind: Seq<char>,
    scope: ConstraintScope,
    target: Seq<char>,
) -> DiagView {
    (
        id,
        sev,
        msg,
        span,
        Some(seq![("command"@, code), ("kind"@, kind), ("scope"@, scope_text(scope)), ("target"@, target)]),
    )
}

/// Whether a note's condition lets it through.
pub open spec fn note_emits(
    c: Constraint,
    cmd: CommandEntry,
    args: Seq<ArgSlot>,
    seen_label: Seq<String>,
    seen_field: Seq<String>,
    profile: Option<Profile>,
) -> bool {
    match c.expr {
        None => true,
        Some(e) => {
            let x = e@;
            let seen = if order_scope(c, cmd) == ConstraintScope::Field {
                seen_field
            } else {
                seen_label
            };
            if starts_with(x, "after:first:"@) {
                spec_any_target(x.skip("after:first:"@.len() as int), seen)
            } else if starts_with(x, "before:first:"@) {
                !spec_any_target(x.skip("before:first:"@.len() as int), seen)
            } else if starts_with(x, "after:"@) {
                spec_any_target(x.skip("after:"@.len() as int), seen)
            } else if starts_with(x, "before:"@) {
                !spec_any_target(x.skip("before:"@.len() as int), seen)
            } else if starts_with(x, "when:"@) {
                spec_note_when(trim(x.skip("when:"@.len() as int)), args, seen, profile)
            } else {
                true
            }
        },
    }
}

/// The findings of one constraint on a command.
pub open spec fn constraint_diags(
    c: Constraint,
    code: Seq<char>,
    cmd: CommandEntry,
    args: Seq<ArgSlot>,
    span: Option<Span>,
    node_idx: int,
    nodes: Seq<Node>,
    label_codes: Seq<String>,
    profile: Option<Profile>,
    seen_label: Seq<String>,
    seen_field: Seq<String>,
    current_field: Option<Seq<String>>,
) -> Seq<DiagView> {
    let sev = spec_map_sev(c.severity, cmd.constraint_default_severity);
    match c.kind {
        ConstraintKind::Order => match c.expr {
            Some(e) => {
                let scope = order_scope(c, cmd);
                let seen = if scope == ConstraintScope::Field {
                    seen_field
                } else {
                    seen_label
                };
                if starts_with(e@, "before:"@) {
                    let t = e@.skip("before:"@.len() as int);
                    if spec_any_target(t, seen) {
                        seq![scoped_diag(ORDER_BEFORE@, sev, c.message@, span, code, "order"@, scope, t)]
                    } else {
                        seq![]
                    }
                } else if starts_with(e@, "after:"@) {
                    let t = e@.skip("after:"@.len() as int);
                    if !spec_any_target(t, seen) {
                        seq![scoped_diag(ORDER_AFTER@, sev, c.message@, span, code, "order"@, scope, t)]
                    } else {
                        seq![]
                    }
                } else {
                    seq![]
                }
            },
            None => seq![],
        },
        ConstraintKind::Requires | ConstraintKind::Incompatible => match c.expr {
            Some(e) => {
                let scope = match c.scope {
                    Some(s) => s,
                    None => ConstraintScope::Label,
                };
                let set = if scope == ConstraintScope::Field {
                    match current_field {
                        Some(f) => f,
                        None => seq![],
                    }
                } else {
                    label_codes
                };
                let hit = spec_any_target(e@, set);
                if c.kind == ConstraintKind::Requires && !hit {
                    seq![scoped_diag(REQUIRED_COMMAND@, sev, c.message@, span, code, "requires"@, scope, e@)]
                } else if c.kind == ConstraintKind::Incompatible && hit {
                    seq![scoped_diag(INCOMPATIBLE_COMMAND@, sev, c.message@, span, code, "incompatible"@, scope, e@)]
                } else {
                    seq![]
                }
            },
            None => seq![],
        },
        ConstraintKind::EmptyData => {
            let own = arg_value(args, 0) matches Some(v) && v.len() > 0;
            let start = if node_idx + 1 < nodes.len() {
                node_idx + 1
            } else {
                nodes.len() as int
            };
            if !own && !trailing_content(nodes, start) {
                seq![(EMPTY_FIELD_DATA@, sev, c.message@, span, Some(seq![("command"@, code)]))]
            } else {
                seq![]
            }
        },
        ConstraintKind::Note => if note_emits(c, cmd, args, seen_label, seen_field, profile) {
            seq![
                (
                    NOTE@,
                    sev,
                    c.message@,
                    span,
                    Some(
                        if c.audience == Some(NoteAudience::Contextual) {
                            seq![("audience"@, "contextual"@), ("command"@, code)]
                        } else {
                            seq![("command"@, code)]
                        },
                    ),
                ),
            ]
        } else {
            seq![]
        },
        ConstraintKind::Range | ConstraintKind::Custom => seq![],
    }
}

/// The findings of the constraints `cs`, in order.
pub open spec fn all_constraint_diags(
    cs: Seq<Constraint>,
    code: Seq<char>,
    cmd: CommandEntry,
    args: Seq<ArgSlot>,
    span: Option<Span>,
    node_idx: int,
    nodes: Seq<Node>,
    label_codes: Seq<String>,
    profile: Option<Profile>,
    seen_label: Seq<String>,
    seen_field: Seq<String>,
    current_field: Option<Seq<String>>,
) -> Seq<DiagView>
    decreases cs.len(),
{
    if cs.len() == 0 {
        seq![]
    } else {
        all_constraint_diags(
            cs.drop_last(),
            code,
            cmd,
            args,
            span,
            node_idx,
            nodes,
            label_codes,
            profile,
            seen_label,
            seen_field,
            current_field,
        ) + constraint_diags(
            cs.last(),
            code,
            cmd,
            args,
            span,
            node_idx,
            nodes,
            label_codes,
            profile,
            seen_label,
            seen_field,
            current_field,
        )
    }
}

/// The profile behind an optional reference.
pub open spec fn opt_profile(p: Option<&Profile>) -> Option<Profile> {
    match p {
        Some(q) => Some(*q),
        None => None,
    }
}

/// The codes behind an optional reference.
pub open spec fn opt_codes(c: Option<&Vec<String>>) -> Option<Seq<String>> {
    match c {
        Some(v) => Some(v@),
        None => None,
    }
}

/// The findings of every constraint of the command (none when it has no
/// constraints).
pub open spec fn spec_command_constraints(
    cc: CommandCtx,
    vc: ValidationContext,
    seen_label: Seq<String>,
    seen_field: Seq<String>,
    current_field: Option<Seq<String>>,
) -> Seq<DiagView> {
    match cc.cmd.constraints {
        Some(cs) => all_constraint_diags(
            cs@,
            cc.code@,
            *cc.cmd,
            cc.args@,
            cc.span,
            cc.node_idx as int,
            vc.label_nodes@,
            vc.label_codes@,
            opt_profile(vc.profile),
            seen_label,
            seen_field,
            current_field,
        ),
        None => seq![],
    }
}

fn scope_string(s: ConstraintScope) -> (r: String)
    ensures
        r@ == scope_text(s),
{
    if s == ConstraintScope::Field {
        owned("field")
    } else {
        owned("label")
    }
}

fn push_scoped(
    issues: &mut Vec<Diagnostic>,
    id: &str,
    sev: Severity,
    msg: String,
    span: Option<Span>,
    code: &str,
    kind: &str,
    scope: ConstraintScope,
    target: String,
)
    ensures
        diags_view(final(issues)@) == diags_view(old(issues)@).push(
            scoped_diag(id@, sev, msg@, span, code@, kind@, scope, target@),
        ),
{
    let ghost e = scoped_diag(id@, sev, msg@, span, code@, kind@, scope, target@);
    let mut c: Vec<(String, String)> = Vec::new();
    ctx_push(&mut c, "command", owned(code));
    ctx_push(&mut c, "kind", owned(kind));
    ctx_push(&mut c, "scope", scope_string(scope));
    ctx_push(&mut c, "target", target);
    let d = Diagnostic::new(id, sev, msg, span).with_context(c);
    assert(ctx_view(c@) =~= e.4->0);
    push_diagnostic(issues, d);
}

fn has_trailing_content(nodes: &[Node], start: usize) -> (r: bool)
    requires
        start <= nodes@.len(),
    ensures
        r == trailing_content(nodes@, start as int),
{
    let mut i: usize = start;
    while i < nodes.len()
        invariant
            start <= i <= nodes@.len(),
            trailing_content(nodes@, start as int) == trailing_content(nodes@, i as int),
        decreases nodes.len() - i,
    {
        match &nodes[i] {
            Node::FieldData { content, .. } => {
                if chars_of(content.as_str()).len() > 0 {
                    return true;
                }
            },
            Node::Command { .. } => {
                return false;
            },
            _ => {},
        }
        i = i + 1;
    }
    false
}

/// Checks one constraint of a command.
fn apply_constraint(
    c: &Constraint,
    cc: &CommandCtx,
    vc: &ValidationContext,
    seen_label: &Vec<String>,
    seen_field: &Vec<String>,
    current_field: Option<&Vec<String>>,
    issues: &mut Vec<Diagnostic>,
)
    ensures
        diags_view(final(issues)@) == diags_view(old(issues)@) + constraint_diags(
            *c,
            cc.code@,
            *cc.cmd,
            cc.args@,
            cc.span,
            cc.node_idx as int,
            vc.label_nodes@,
            vc.label_codes@,
            opt_profile(vc.profile),
            seen_label@,
            seen_field@,
            opt_codes(current_field),
        ),
{
    let ghost old_v = diags_view(issues@);
    let ghost expected = constraint_diags(
        *c,
        cc.code@,
        *cc.cmd,
        cc.args@,
        cc.span,
        cc.node_idx as int,
        vc.label_nodes@,
        vc.label_codes@,
        opt_profile(vc.profile),
        seen_label@,
        seen_field@,
        opt_codes(current_field),
    );
    let sev = map_sev(c.severity, cc.cmd.constraint_default_severity);
    let order_scope_v = match c.scope {
        Some(s) => s,
        None => if cc.cmd.scope == Some(CommandScope::Field) {
            ConstraintScope::Field
        } else {
            ConstraintScope::Label
        },
    };
    match c.kind {
        ConstraintKind::Order => {
            if let Some(expr) = &c.expr {
                let seen = if order_scope_v == ConstraintScope::Field {
                    seen_field
                } else {
                    seen_label
                };
                let e = chars_of(expr.as_str());
                if let Some(t) = strip_prefix(&e, "before:") {
                    if any_target_chars(&t, seen) {
                        push_scoped(issues, ORDER_BEFORE, sev, c.message.clone(), cc.span, cc.code, "order", order_scope_v, string_from_chars(&t));
                    }
                } else if let Some(t) = strip_prefix(&e, "after:") {
                    if !any_target_chars(&t, seen) {
                        push_scoped(issues, ORDER_AFTER, sev, c.message.clone(), cc.span, cc.code, "order", order_scope_v, string_from_chars(&t));
                    }
                }
            }
        },
        ConstraintKind::Requires | ConstraintKind::Incompatible => {
            if let Some(expr) = &c.expr {
                let scope = match c.scope {
                    Some(s) => s,
                    None => ConstraintScope::Label,
                };
                let empty: Vec<String> = Vec::new();
                let set: &Vec<String> = if scope == ConstraintScope::Field {
                    match current_field {
                        Some(f) => f,
                        None => &empty,
                    }
                } else {
                    vc.label_codes
                };
                let e = chars_of(expr.as_str());
                let hit = any_target_chars(&e, set);
                if c.kind == ConstraintKind::Requires && !hit {
                    push_scoped(issues, REQUIRED_COMMAND, sev, c.message.clone(), cc.span, cc.code, "requires", scope, expr.clone());
                } else if c.kind == ConstraintKind::Incompatible && hit {
                    push_scoped(issues, INCOMPATIBLE_COMMAND, sev, c.message.clone(), cc.span, cc.code, "incompatible", scope, expr.clone());
                }
            }
        },
        ConstraintKind::EmptyData => {
            let own = if cc.args.len() > 0 {
                match &cc.args[0].value {
                    Some(v) => chars_of(v.as_str()).len() > 0,
                    None => false,
                }
            } else {
                false
            };
            let n = vc.label_nodes.len();
            let start = if cc.node_idx < n && cc.node_idx + 1 < n {
                cc.node_idx + 1
            } else {
                n
            };
            if !own && !has_trailing_content(vc.label_nodes, start) {
                let d = Diagnostic::new(EMPTY_FIELD_DATA, sev, c.message.clone(), cc.span).with_context(
                    ctx1("command", owned(cc.code)),
                );
                push_diagnostic(issues, d);
            }
        },
        ConstraintKind::Note => {
            let emit = match &c.expr {
                None => true,
                Some(expr) => {
                    let seen = if order_scope_v == ConstraintScope::Field {
                        seen_field
                    } else {
                        seen_label
                    };
                    let e = chars_of(expr.as_str());
                    if let Some(t) = strip_prefix(&e, "after:first:") {
                        any_target_chars(&t, seen)
                    } else if let Some(t) = strip_prefix(&e, "before:first:") {
                        !any_target_chars(&t, seen)
                    } else if let Some(t) = strip_prefix(&e, "after:") {
                        any_target_chars(&t, seen)
                    } else if let Some(t) = strip_prefix(&e, "before:") {
                        !any_target_chars(&t, seen)
                    } else if let Some(cond) = strip_prefix(&e, "when:") {
                        let ct = string_from_chars(&trim_chars(&cond));
                        evaluate_note_when_expression(ct.as_str(), cc.args, seen, vc.profile)
                    } else {
                        true
                    }
                },
            };
            if emit {
                let mut ctx: Vec<(String, String)> = Vec::new();
                if c.audience == Some(NoteAudience::Contextual) {
                    ctx_push(&mut ctx, "audience", owned("contextual"));
                }
                ctx_push(&mut ctx, "command", owned(cc.code));
                let ghost cv = ctx_view(ctx@);
                let d = Diagnostic::new(NOTE, sev, c.message.clone(), cc.span).with_context(ctx);
                push_diagnostic(issues, d);
                proof {
                    if c.audience == Some(NoteAudience::Contextual) {
                        assert(cv =~= seq![("audience"@, "contextual"@), ("command"@, cc.code@)]);
                    } else {
                        assert(cv =~= seq![("command"@, cc.code@)]);
                    }
                }
            }
        },
        ConstraintKind::Range | ConstraintKind::Custom => {},
    }
    assert(diags_view(issues@) =~= old_v + expected);
}

/// Checks every declarative constraint of a command and reports the
/// findings (see [`constraint_diags`]).
pub fn validate_command_constraints(
    cmd_ctx: &CommandCtx,
    vctx: &ValidationContext,
    seen_label_codes: &Vec<String>,
    seen_field_codes: &Vec<String>,
    current_field_codes: Option<&Vec<String>>,
    issues: &mut Vec<Diagnostic>,
)
    ensures
        diags_view(final(issues)@) == diags_view(old(issues)@) + spec_command_constraints(
            *cmd_ctx,
            *vctx,
            seen_label_codes@,
            seen_field_codes@,
            opt_codes(current_field_codes),
        ),
{
    let constraints = match &cmd_ctx.cmd.constraints {
        Some(cs) => cs,
        None => {
            assert(diags_view(issues@) =~= diags_view(old(issues)@) + seq![]);
            return;
        },
    };
    let ghost old_v = diags_view(issues@);
    let mut i: usize = 0;
    while i < constraints.len()
        invariant
            i <= constraints.len(),
            cmd_ctx.cmd.constraints == Some(*constraints),
            diags_view(issues@) == old_v + all_constraint_diags(
                constraints@.take(i as int),
                cmd_ctx.code@,
                *cmd_ctx.cmd,
                cmd_ctx.args@,
                cmd_ctx.span,
                cmd_ctx.node_idx as int,
                vctx.label_nodes@,
                vctx.label_codes@,
                opt_profile(vctx.profile),
                seen_label_codes@,
                seen_field_codes@,
                opt_codes(current_field_codes),
            ),
        decreases constraints.len() - i,
    {
        apply_constraint(&constraints[i], cmd_ctx, vctx, seen_label_codes, seen_field_codes, current_field_codes, issues);
        assert(constraints@.take(i + 1).drop_last() =~= constraints@.take(i as int));
        i = i + 1;
    }
    assert(constraints@.take(constraints.len() as int) =~= constraints@);
}

/// Some target of `targets` (its `|`-separated, trimmed, non-empty
/// entries) is among `seen`.
pub open spec fn some_target_seen(targets: Seq<char>, seen: Seq<String>) -> bool {
    exists|i: int, j: int|
        0 <= i < accepted(targets).len() && 0 <= j < seen.len() && (#[trigger] seen[j])@ == #[trigger] accepted(
            targets,
        )[i]
}

proof fn lemma_some_target_seen(targets: Seq<char>, seen: Seq<String>)
    ensures
        some_target_seen(targets, seen) == spec_any_target(targets, seen),
{
    if some_target_seen(targets, seen) {
        let (i, j) = choose|i: int, j: int|
            0 <= i < accepted(targets).len() && 0 <= j < seen.len() && (#[trigger] seen[j])@ == #[trigger] accepted(
                targets,
            )[i];
        assert(seq_has(seen, accepted(targets)[i]));
    }
    if spec_any_target(targets, seen) {
        let i = choose|i: int| 0 <= i < accepted(targets).len() && seq_has(seen, #[trigger] accepted(targets)[i]);
        let j = choose|j: int| 0 <= j < seen.len() && (#[trigger] seen[j])@ == accepted(targets)[i];
        assert(seen[j]@ == accepted(targets)[i]);
    }
}

/// The codes an ordering constraint of the command is checked against:
/// those of the field for field scope, else those of the label.
pub open spec fn order_seen(c: Constraint, cmd: CommandEntry, seen_label: Seq<String>, seen_field: Seq<String>) -> Seq<
    String,
> {
    if order_scope(c, cmd) == ConstraintScope::Field {
        seen_field
    } else {
        seen_label
    }
}

/// A command with the one ordering constraint `before:T` gets an
/// order-before finding exactly when some target of `T` was already seen in
/// the constraint's scope, and no finding otherwise.
pub proof fn law_order_before_iff_target_seen(
    cc: CommandCtx,
    vc: ValidationContext,
    seen_label: Seq<String>,
    seen_field: Seq<String>,
    current_field: Option<Seq<String>>,
    c: Constraint,
    targets: Seq<char>,
)
    requires
        cc.cmd.constraints matches Some(cs) && cs@ == seq![c],
        c.kind == ConstraintKind::Order,
        c.expr matches Some(e) && e@ == "before:"@ + targets,
    ensures
        ({
            let ds = spec_command_constraints(cc, vc, seen_label, seen_field, current_field);
            let found = some_target_seen(targets, order_seen(c, *cc.cmd, seen_label, seen_field));
            &&& ds.len() == (if found {
                1int
            } else {
                0int
            })
            &&& found ==> ds[0].0 == ORDER_BEFORE@
        }),
{
    lemma_some_target_seen(targets, order_seen(c, *cc.cmd, seen_label, seen_field));
    let e = c.expr->0@;
    assert(e.subrange(0, "before:"@.len() as int) =~= "before:"@);
    assert(e.skip("before:"@.len() as int) =~= targets);
    lemma_single_constraint(cc, vc, seen_label, seen_field, current_field, c);
}

/// A command with the one ordering constraint `after:T` gets an
/// order-after finding exactly when no target of `T` was seen yet in the
/// constraint's scope, and no finding otherwise.
pub proof fn law_order_after_iff_no_target_seen(
    cc: CommandCtx,
    vc: ValidationContext,
    seen_label: Seq<String>,
    seen_field: Seq<String>,
    current_field: Option<Seq<String>>,
    c: Constraint,
    targets: Seq<char>,
)
    requires
        cc.cmd.constraints matches Some(cs) && cs@ == seq![c],
        c.kind == ConstraintKind::Order,
        c.expr matches Some(e) && e@ == "after:"@ + targets,
    ensures
        ({
            let ds = spec_command_constraints(cc, vc, seen_label, seen_field, current_field);
            let found = some_target_seen(targets, order_seen(c, *cc.cmd, seen_label, seen_field));
            &&& ds.len() == (if found {
                0int
            } else {
                1int
            })
            &&& !found ==> ds[0].0 == ORDER_AFTER@
        }),
{
    lemma_some_target_seen(targets, order_seen(c, *cc.cmd, seen_label, seen_field));
    reveal_strlit("after:");
    reveal_strlit("before:");
    let e = c.expr->0@;
    assert(e.subrange(0, "after:"@.len() as int) =~= "after:"@);
    assert(e.skip("after:"@.len() as int) =~= targets);
    assert(!starts_with(e, "before:"@)) by {
        assert(e[0] == 'a');
    }
    lemma_single_constraint(cc, vc, seen_label, seen_field, current_field, c);
}

/// The codes a requires or incompatible constraint is checked against:
/// those of the current field for field scope (none outside a field),
/// else those of the whole label.
pub open spec fn presence_set(c: Constraint, label_codes: Seq<String>, current_field: Option<Seq<String>>) -> Seq<String> {
    if c.scope == Some(ConstraintScope::Field) {
        match current_field {
            Some(f) => f,
            None => seq![],
        }
    } else {
        label_codes
    }
}

/// The findings of a command with the one constraint `c`.
proof fn lemma_single_constraint(
    cc: CommandCtx,
    vc: ValidationContext,
    seen_label: Seq<String>,
    seen_field: Seq<String>,
    current_field: Option<Seq<String>>,
    c: Constraint,
)
    requires
        cc.cmd.constraints matches Some(cs) && cs@ == seq![c],
    ensures
        spec_command_constraints(cc, vc, seen_label, seen_field, current_field) == constraint_diags(
            c,
            cc.code@,
            *cc.cmd,
            cc.args@,
            cc.span,
            cc.node_idx as int,
            vc.label_nodes@,
            vc.label_codes@,
            opt_profile(vc.profile),
            seen_label,
            seen_field,
            current_field,
        ),
{
    let cs = cc.cmd.constraints->0@;
    assert(cs.drop_last() =~= Seq::<Constraint>::empty());
    assert(cs.last() == c);
    let one = constraint_diags(
        c,
        cc.code@,
        *cc.cmd,
        cc.args@,
        cc.span,
        cc.node_idx as int,
        vc.label_nodes@,
        vc.label_codes@,
        opt_profile(vc.profile),
        seen_label,
        seen_field,
        current_field,
    );
    let none = all_constraint_diags(
        cs.drop_last(),
        cc.code@,
        *cc.cmd,
        cc.args@,
        cc.span,
        cc.node_idx as int,
        vc.label_nodes@,
        vc.label_codes@,
        opt_profile(vc.profile),
        seen_label,
        seen_field,
        current_field,
    );
    assert(none == Seq::<DiagView>::empty());
    assert(spec_command_constraints(cc, vc, seen_label, seen_field, current_field) == none + one);
    assert(none + one =~= one);
}

/// A command with the one constraint "requires T" gets a required-command
/// finding exactly when no target of `T` is among the codes of its scope.
pub proof fn law_requires_iff_no_target_present(
    cc: CommandCtx,
    vc: ValidationContext,
    seen_label: Seq<String>,
    seen_field: Seq<String>,
    current_field: Option<Seq<String>>,
    c: Constraint,
)
    requires
        cc.cmd.constraints matches Some(cs) && cs@ == seq![c],
        c.kind == ConstraintKind::Requires,
        c.expr is Some,
    ensures
        ({
            let ds = spec_command_constraints(cc, vc, seen_label, seen_field, current_field);
            let found = some_target_seen(c.expr->0@, presence_set(c, vc.label_codes@, current_field));
            &&& ds.len() == (if found {
                0int
            } else {
                1int
            })
            &&& !found ==> ds[0].0 == REQUIRED_COMMAND@
        }),
{
    lemma_single_constraint(cc, vc, seen_label, seen_field, current_field, c);
    lemma_some_target_seen(c.expr->0@, presence_set(c, vc.label_codes@, current_field));
}

/// A command with the one constraint "incompatible with T" gets an
/// incompatible-command finding exactly when some target of `T` is among
/// the codes of its scope.
pub proof fn law_incompatible_iff_target_present(
    cc: CommandCtx,
    vc: ValidationContext,
    seen_label: Seq<String>,
    seen_field: Seq<String>,
    current_field: Option<Seq<String>>,
    c: Constraint,
)
    requires
        cc.cmd.constraints matches Some(cs) && cs@ == seq![c],
        c.kind == ConstraintKind::Incompatible,
        c.expr is Some,
    ensures
        ({
            let ds = spec_command_constraints(cc, vc, seen_label, seen_field, current_field);
            let found = some_target_seen(c.expr->0@, presence_set(c, vc.label_codes@, current_field));
            &&& ds.len() == (if found {
                1int
            } else {
                0int
            })
            &&& found ==> ds[0].0 == INCOMPATIBLE_COMMAND@
        }),
{
    lemma_single_constraint(cc, vc, seen_label, seen_field, current_field, c);
    lemma_some_target_seen(c.expr->0@, presence_set(c, vc.label_codes@, current_field));
}

} // verus!
