//! Checks on a command's arguments as a whole: which slot each argument
//! spec reads, whether a required argument is there, the defaults that
//! stand in for a missing one, and the checks on each value.

use crate::arg_checks::{opt_arg, opt_slot, select_effective_arg, spec_select, spec_value_diags, slot_value, validate_arg_value};
use crate::ast::{ArgSlot, Presence};
use crate::constraints::opt_profile;
use crate::context::{CommandCtx, ValidationContext};
use crate::diag::{
    diag2, diags_view, push_diagnostic, spec_severity, DiagView, Diagnostic, SeverityRegistry, REQUIRED_EMPTY,
    REQUIRED_MISSING,
};
use crate::label_state::{lookup, marked_consumed, LabelState, LabelView};
use crate::profile::Profile;
use crate::tables::{Arg, ArgDefault, ArgUnion, CommandEntry};
use crate::text::{decimal, msg3, owned, str_eq, usize_to_decimal};
use crate::state::{spec_state_lookup, state_value_view, StateValue, StateValueView};
use vstd::prelude::*;

verus! {

broadcast use vstd::seq::group_seq_axioms;

// ---------------------------------------------------------------------------
// Slots
// ---------------------------------------------------------------------------

/// Whether slot `j` answers to argument `i`: it stands at position `i`, or
/// its key is the decimal text of `i`.
pub open spec fn slot_answers(s: ArgSlot, j: int, i: nat) -> bool {
    j == i || (s.key matches Some(k) && k@ == decimal(i))
}

/// The slot argument `i` reads: the last slot that answers to it.
pub open spec fn slot_index(args: Seq<ArgSlot>, i: nat) -> Option<int>
    decreases args.len(),
{
    if args.len() == 0 {
        None
    } else if slot_answers(args.last(), args.len() - 1, i) {
        Some(args.len() - 1)
    } else {
        slot_index(args.drop_last(), i)
    }
}

/// The slot argument `i` reads, by value.
pub open spec fn slot_for(args: Seq<ArgSlot>, i: nat) -> Option<ArgSlot> {
    match slot_index(args, i) {
        Some(j) => Some(args[j]),
        None => None,
    }
}

proof fn lemma_slot_index_in_range(args: Seq<ArgSlot>, i: nat)
    ensures
        slot_index(args, i) matches Some(j) ==> 0 <= j < args.len(),
    decreases args.len(),
{
    if args.len() > 0 {
        lemma_slot_index_in_range(args.drop_last(), i);
    }
}

/// The slot that argument `i` reads, if any.
pub fn arg_slot_for<'a>(args: &'a [ArgSlot], i: usize) -> (r: Option<&'a ArgSlot>)
    ensures
        opt_slot(r) == slot_for(args@, i as nat),
{
    let key = usize_to_decimal(i);
    let mut found: Option<usize> = None;
    let mut j: usize = 0;
    while j < args.len()
        invariant
            j <= args@.len(),
            key@ == decimal(i as nat),
            found == match slot_index(args@.take(j as int), i as nat) {
                Some(q) => Some(q as usize),
                None => None::<usize>,
            },
            forall|q: usize| found == Some(q) ==> q < j,
        decreases args.len() - j,
    {
        proof {
            assert(args@.take(j + 1).drop_last() =~= args@.take(j as int));
            assert(args@.take(j + 1).last() == args@[j as int]);
            lemma_slot_index_in_range(args@.take(j as int), i as nat);
        }
        let s = &args[j];
        let keyed = match &s.key {
            Some(k) => str_eq(k.as_str(), key.as_str()),
            None => false,
        };
        if j == i || keyed {
            found = Some(j);
        }
        j = j + 1;
    }
    proof {
        assert(args@.take(args@.len() as int) =~= args@);
        lemma_slot_index_in_range(args@, i as nat);
    }
    match found {
        Some(q) => Some(&args[q]),
        None => None,
    }
}

// ---------------------------------------------------------------------------
// Defaults
// ---------------------------------------------------------------------------

/// The first default listed under `key`.
pub open spec fn default_for_key(m: Seq<(String, ArgDefault)>, key: Seq<char>) -> Option<ArgDefault>
    decreases m.len(),
{
    if m.len() == 0 {
        None
    } else if m[0].0@ == key {
        Some(m[0].1)
    } else {
        default_for_key(m.drop_first(), key)
    }
}

/// The default an argument lists for the profile's resolution, if any.
pub open spec fn dpi_default(a: Arg, profile: Option<Profile>) -> Option<ArgDefault> {
    match (a.default_by_dpi, profile) {
        (Some(m), Some(p)) => default_for_key(m@, decimal(p.dpi as nat)),
        _ => None,
    }
}

/// The text of a default, when it has one.
pub open spec fn default_text(d: Option<ArgDefault>) -> Option<Seq<char>> {
    match d {
        Some(ArgDefault::Text(t)) => Some(t@),
        _ => None,
    }
}

/// Whether the spec gives the argument a default: a plain one, or one for
/// the profile's resolution.
pub open spec fn has_static_default(a: Arg, profile: Option<Profile>) -> bool {
    a.default is Some || dpi_default(a, profile) is Some
}

/// The default a producer seen in the label supplies: the value its state
/// key names, when the argument names both; a floating-point state value
/// is not computed.
pub open spec fn state_default(a: Arg, lv: LabelView) -> StateValueView {
    match (a.default_from, a.default_from_state_key) {
        (Some(df), Some(key)) => if lv.producers.contains(df@) {
            spec_state_lookup(lv.values, key@)
        } else {
            StateValueView::Unset
        },
        _ => StateValueView::Unset,
    }
}

/// The default that stands in for a missing value: the one a producer
/// seen in the label supplies (or that it is not computed), else the one
/// for the profile's resolution when it has a text, else the plain
/// default's text, else none.
pub open spec fn resolved_default(a: Arg, profile: Option<Profile>, lv: LabelView) -> StateValueView {
    match state_default(a, lv) {
        StateValueView::Unset => match default_text(dpi_default(a, profile)) {
            Some(t) => StateValueView::Value(t),
            None => match default_text(a.default) {
                Some(t) => StateValueView::Value(t),
                None => StateValueView::Unset,
            },
        },
        other => other,
    }
}

fn default_in<'a>(m: &'a Vec<(String, ArgDefault)>, key: &str) -> (r: Option<&'a ArgDefault>)
    ensures
        match r {
            Some(d) => default_for_key(m@, key@) == Some(*d),
            None => default_for_key(m@, key@) is None,
        },
{
    let mut i: usize = 0;
    assert(m@.skip(0) =~= m@);
    while i < m.len()
        invariant
            i <= m@.len(),
            default_for_key(m@, key@) == default_for_key(m@.skip(i as int), key@),
        decreases m@.len() - i,
    {
        let ghost rest = m@.skip(i as int);
        if str_eq(m[i].0.as_str(), key) {
            return Some(&m[i].1);
        }
        assert(rest.drop_first() =~= m@.skip(i + 1));
        i = i + 1;
    }
    None
}

fn dpi_default_of<'a>(a: &'a Arg, profile: Option<&Profile>) -> (r: Option<&'a ArgDefault>)
    ensures
        match r {
            Some(d) => dpi_default(*a, opt_profile(profile)) == Some(*d),
            None => dpi_default(*a, opt_profile(profile)) is None,
        },
{
    match (&a.default_by_dpi, profile) {
        (Some(m), Some(p)) => {
            let key = crate::text::u64_to_decimal(p.dpi as u64);
            default_in(m, key.as_str())
        },
        _ => None,
    }
}

fn text_of(d: Option<&ArgDefault>) -> (r: Option<String>)
    ensures
        match r {
            Some(t) => default_text(match d {
                Some(x) => Some(*x),
                None => None,
            }) == Some(t@),
            None => default_text(match d {
                Some(x) => Some(*x),
                None => None,
            }) is None,
        },
{
    match d {
        Some(ArgDefault::Text(t)) => Some(owned(t.as_str())),
        _ => None,
    }
}

/// The default that stands in for a missing value of `a` (see
/// [`resolved_default`]).
pub fn resolve_default(a: &Arg, profile: Option<&Profile>, label_state: &LabelState) -> (r: StateValue)
    ensures
        state_value_view(r) == resolved_default(*a, opt_profile(profile), label_state@),
{
    match (&a.default_from, &a.default_from_state_key) {
        (Some(df), Some(key)) => {
            if label_state.has_producer(df.as_str()) {
                match label_state.values.state_value_by_key(key.as_str()) {
                    StateValue::Unset => {},
                    other => {
                        return other;
                    },
                }
            }
        },
        _ => {},
    }
    match text_of(dpi_default_of(a, profile)) {
        Some(t) => StateValue::Value(t),
        None => match &a.default {
            Some(d) => match text_of(Some(d)) {
                Some(t) => StateValue::Value(t),
                None => StateValue::Unset,
            },
            None => StateValue::Unset,
        },
    }
}

// ---------------------------------------------------------------------------
// Presence and values
// ---------------------------------------------------------------------------

/// A presence finding for argument `key`.
pub open spec fn presence_diag(reg: SeverityRegistry, ctx: CommandCtx, id: Seq<char>, key: Seq<char>, what: Seq<char>) -> DiagView {
    (id, spec_severity(reg, id), ctx.code@ + "."@ + key + what, ctx.span, Some(seq![("arg"@, key), ("command"@, ctx.code@)]))
}

/// The presence finding for a required argument without a default: missing
/// when no slot answers, unset or empty when its slot says so.
pub open spec fn spec_presence_diags(
    reg: SeverityRegistry,
    ctx: CommandCtx,
    profile: Option<Profile>,
    lv: LabelView,
    key: Seq<char>,
    eff: Option<Arg>,
    slot: Option<ArgSlot>,
) -> Seq<DiagView> {
    match eff {
        Some(a) => if a.optional || has_static_default(a, profile) || !(resolved_default(a, profile, lv) is Unset) {
            seq![]
        } else {
            match slot {
                None => seq![presence_diag(reg, ctx, REQUIRED_MISSING@, key, " is required but missing"@)],
                Some(s) => if s.presence == Presence::Unset {
                    seq![presence_diag(reg, ctx, REQUIRED_MISSING@, key, " is required but unset"@)]
                } else if s.presence == Presence::Empty {
                    seq![presence_diag(reg, ctx, REQUIRED_EMPTY@, key, " is empty but required"@)]
                } else {
                    seq![]
                },
            }
        },
        None => seq![],
    }
}

/// The findings for argument `i` with spec `u`: presence, then the checks
/// on the slot's value, or on the default that stands in for it.
pub open spec fn spec_arg_diags(
    reg: SeverityRegistry,
    ctx: CommandCtx,
    profile: Option<Profile>,
    lv: LabelView,
    u: ArgUnion,
    i: nat,
) -> Seq<DiagView> {
    let key = decimal(i);
    let slot = slot_for(ctx.args@, i);
    let eff = spec_select(u, slot_value(slot));
    spec_presence_diags(reg, ctx, profile, lv, key, eff, slot) + match eff {
        Some(a) => match slot {
            Some(s) if s.value is Some => spec_value_diags(reg, ctx, profile, key, s.value->0@, a),
            _ => match resolved_default(a, profile, lv) {
                StateValueView::Value(t) => spec_value_diags(reg, ctx, profile, key, t, a),
                _ => seq![],
            },
        },
        None => seq![],
    }
}

/// The findings for the first `n` argument specs, in order.
pub open spec fn spec_args_diags(
    reg: SeverityRegistry,
    ctx: CommandCtx,
    profile: Option<Profile>,
    lv: LabelView,
    specs: Seq<ArgUnion>,
    n: int,
) -> Seq<DiagView>
    decreases n,
{
    if n <= 0 {
        seq![]
    } else {
        spec_args_diags(reg, ctx, profile, lv, specs, n - 1) + spec_arg_diags(
            reg,
            ctx,
            profile,
            lv,
            specs[n - 1],
            (n - 1) as nat,
        )
    }
}

/// The findings for all of a command's arguments, with label state `lv`.
pub open spec fn spec_command_args_diags(reg: SeverityRegistry, ctx: CommandCtx, profile: Option<Profile>, lv: LabelView) -> Seq<
    DiagView,
> {
    match ctx.cmd.args {
        Some(specs) => spec_args_diags(reg, ctx, profile, lv, specs@, specs@.len() as int),
        None => seq![],
    }
}

fn presence_diagnostic(cmd_ctx: &CommandCtx, reg: &SeverityRegistry, id: &str, key: &str, what: &str) -> (d: Diagnostic)
    ensures
        crate::diag::diag_view(d) == presence_diag(*reg, *cmd_ctx, id@, key@, what@),
{
    let head = msg3(cmd_ctx.code, ".", key);
    let message = crate::text::msg2(head.as_str(), what);
    diag2(id, reg.severity_of(id), message, cmd_ctx.span, "arg", owned(key), "command", owned(cmd_ctx.code))
}

fn check_presence(
    cmd_ctx: &CommandCtx,
    reg: &SeverityRegistry,
    profile: Option<&Profile>,
    label_state: &LabelState,
    key: &str,
    eff: Option<&Arg>,
    slot: Option<&ArgSlot>,
    issues: &mut Vec<Diagnostic>,
)
    ensures
        diags_view(final(issues)@) == diags_view(old(issues)@) + spec_presence_diags(
            *reg,
            *cmd_ctx,
            opt_profile(profile),
            label_state@,
            key@,
            opt_arg(eff),
            opt_slot(slot),
        ),
{
    let ghost d0 = diags_view(issues@);
    if let Some(a) = eff {
        if !a.optional {
            let has_default = a.default.is_some() || dpi_default_of(a, profile).is_some() || !matches!(resolve_default(a, profile, label_state), StateValue::Unset);
            if !has_default {
                match slot {
                    None => {
                        push_diagnostic(issues, presence_diagnostic(cmd_ctx, reg, REQUIRED_MISSING, key, " is required but missing"));
                    },
                    Some(s) => {
                        if s.presence == Presence::Unset {
                            push_diagnostic(issues, presence_diagnostic(cmd_ctx, reg, REQUIRED_MISSING, key, " is required but unset"));
                        } else if s.presence == Presence::Empty {
                            push_diagnostic(issues, presence_diagnostic(cmd_ctx, reg, REQUIRED_EMPTY, key, " is empty but required"));
                        }
                    },
                }
            }
        }
    }
    assert(diags_view(issues@) =~= d0 + spec_presence_diags(*reg, *cmd_ctx, opt_profile(profile), label_state@, key@, opt_arg(eff), opt_slot(slot)));
}

/// Checks a command's arguments: each required argument is there or has a
/// default, and each value, or the default that stands in for a missing
/// one, passes the checks on its text.
pub fn validate_command_args(
    cmd_ctx: &CommandCtx,
    vctx: &ValidationContext,
    label_state: &LabelState,
    issues: &mut Vec<Diagnostic>,
)
    ensures
        diags_view(final(issues)@) == diags_view(old(issues)@) + spec_command_args_diags(
            *vctx.severities,
            *cmd_ctx,
            opt_profile(vctx.profile),
            label_state@,
        ),
{
    let ghost d0 = diags_view(issues@);
    let specs = match &cmd_ctx.cmd.args {
        Some(v) => v,
        None => {
            assert(diags_view(issues@) =~= d0);
            return;
        },
    };
    let reg = vctx.severities;
    let profile = vctx.profile;
    let mut i: usize = 0;
    while i < specs.len()
        invariant
            i <= specs@.len(),
            cmd_ctx.cmd.args == Some(*specs),
            reg == vctx.severities,
            profile == vctx.profile,
            diags_view(issues@) == d0 + spec_args_diags(*reg, *cmd_ctx, opt_profile(profile), label_state@, specs@, i as int),
        decreases specs.len() - i,
    {
        let ghost before = diags_view(issues@);
        let key = usize_to_decimal(i);
        let slot = arg_slot_for(cmd_ctx.args, i);
        let eff = select_effective_arg(&specs[i], slot);
        check_presence(cmd_ctx, reg, profile, label_state, key.as_str(), eff, slot, issues);
        let ghost mid = diags_view(issues@);
        match eff {
            Some(a) => {
                let val = match slot {
                    Some(s) => match &s.value {
                        Some(v) => Some(owned(v.as_str())),
                        None => None,
                    },
                    None => None,
                };
                match val {
                    Some(v) => {
                        validate_arg_value(cmd_ctx, vctx, key.as_str(), v.as_str(), a, issues);
                    },
                    None => match resolve_default(a, profile, label_state) {
                        StateValue::Value(t) => {
                            validate_arg_value(cmd_ctx, vctx, key.as_str(), t.as_str(), a, issues);
                        },
                        _ => {},
                    },
                }
            },
            None => {},
        }
        proof {
            let ghost tail = spec_arg_diags(*reg, *cmd_ctx, opt_profile(profile), label_state@, specs@[i as int], i as nat);
            assert(diags_view(issues@) =~= before + tail);
            assert(d0 + spec_args_diags(*reg, *cmd_ctx, opt_profile(profile), label_state@, specs@, i + 1) =~= before + tail);
        }
        i = i + 1;
    }
}

// ---------------------------------------------------------------------------
// Producers named as default sources
// ---------------------------------------------------------------------------

/// The producer an argument spec names as its default source: the spec's
/// own, or, for alternatives, the first alternative's.
pub open spec fn default_source(u: ArgUnion) -> Option<Seq<char>> {
    let a = match u {
        ArgUnion::Single(a) => Some(a),
        ArgUnion::OneOf { one_of } => if one_of@.len() > 0 {
            Some(one_of@[0])
        } else {
            None
        },
    };
    match a {
        Some(a) => match a.default_from {
            Some(df) => Some(df@),
            None => None,
        },
        None => None,
    }
}

/// Whether some argument spec of the command names `p` as its default source.
pub open spec fn names_default_source(specs: Seq<ArgUnion>, p: Seq<char>) -> bool {
    exists|k: int| 0 <= k < specs.len() && default_source(#[trigger] specs[k]) == Some(p)
}

/// The state after the default sources of the first `n` argument specs
/// are marked consumed, in order.
pub open spec fn consume_sources(v: LabelView, specs: Seq<ArgUnion>, n: int) -> LabelView
    decreases n,
{
    if n <= 0 {
        v
    } else {
        let w = consume_sources(v, specs, n - 1);
        match default_source(specs[n - 1]) {
            Some(df) => marked_consumed(w, df),
            None => w,
        }
    }
}

/// The state after a command's default sources are marked consumed.
pub open spec fn spec_consume(v: LabelView, cmd: CommandEntry) -> LabelView {
    match cmd.args {
        Some(specs) => consume_sources(v, specs@, specs@.len() as int),
        None => v,
    }
}

fn default_source_of(u: &ArgUnion) -> (r: Option<&String>)
    ensures
        match r {
            Some(df) => default_source(*u) == Some(df@),
            None => default_source(*u) is None,
        },
{
    let a = match u {
        ArgUnion::Single(a) => Some(a),
        ArgUnion::OneOf { one_of } => if one_of.len() > 0 {
            Some(&one_of[0])
        } else {
            None
        },
    };
    match a {
        Some(a) => match &a.default_from {
            Some(df) => Some(df),
            None => None,
        },
        None => None,
    }
}

/// Marks as consumed each recorded producer that an argument spec of the
/// command names as its default source.
pub fn consume_default_from_refs(cmd_ctx: &CommandCtx, label_state: &mut LabelState)
    requires
        old(label_state).wf(),
    ensures
        final(label_state).wf(),
        forall|q: Seq<char>| #[trigger] lookup(final(label_state)@.consumed, q) == if (match cmd_ctx.cmd.args {
            Some(specs) => names_default_source(specs@, q),
            None => false,
        }) && lookup(old(label_state)@.consumed, q) is Some {
            Some(true)
        } else {
            lookup(old(label_state)@.consumed, q)
        },
        final(label_state).producers_seen == old(label_state).producers_seen,
        final(label_state).field_numbers == old(label_state).field_numbers,
        final(label_state).loaded_fonts == old(label_state).loaded_fonts,
        final(label_state).last_producer_idx == old(label_state).last_producer_idx,
        final(label_state).has_explicit_pw == old(label_state).has_explicit_pw,
        final(label_state).has_explicit_ll == old(label_state).has_explicit_ll,
        final(label_state).gf_total_bytes == old(label_state).gf_total_bytes,
        final(label_state)@ == spec_consume(old(label_state)@, *cmd_ctx.cmd),
{
    let ghost orig = label_state@.consumed;
    let ghost v0 = label_state@;
    let specs = match &cmd_ctx.cmd.args {
        Some(v) => v,
        None => {
            return;
        },
    };
    let mut i: usize = 0;
    while i < specs.len()
        invariant
            i <= specs@.len(),
            cmd_ctx.cmd.args == Some(*specs),
            label_state.wf(),
            forall|q: Seq<char>| #[trigger] lookup(label_state@.consumed, q) == if names_default_source(specs@.take(i as int), q)
                && lookup(orig, q) is Some {
                Some(true)
            } else {
                lookup(orig, q)
            },
            label_state.producers_seen == old(label_state).producers_seen,
            label_state.field_numbers == old(label_state).field_numbers,
            label_state.loaded_fonts == old(label_state).loaded_fonts,
            label_state.last_producer_idx == old(label_state).last_producer_idx,
            label_state.has_explicit_pw == old(label_state).has_explicit_pw,
            label_state.has_explicit_ll == old(label_state).has_explicit_ll,
            label_state.gf_total_bytes == old(label_state).gf_total_bytes,
            label_state@ == consume_sources(v0, specs@, i as int),
            v0 == old(label_state)@,
        decreases specs.len() - i,
    {
        let ghost pre = specs@.take(i as int);
        let ghost post = specs@.take(i + 1);
        proof {
            assert(post =~= pre.push(specs@[i as int]));
        }
        match default_source_of(&specs[i]) {
            Some(df) => {
                label_state.mark_consumed(df.as_str());
            },
            None => {},
        }
        proof {
            assert forall|q: Seq<char>| names_default_source(post, q) == (names_default_source(pre, q) || default_source(specs@[i as int]) == Some(q)) by {
                if names_default_source(post, q) {
                    let k = choose|k: int| 0 <= k < post.len() && default_source(#[trigger] post[k]) == Some(q);
                    if k < i {
                        assert(pre[k] == post[k]);
                    }
                }
                if names_default_source(pre, q) {
                    let k = choose|k: int| 0 <= k < pre.len() && default_source(#[trigger] pre[k]) == Some(q);
                    assert(post[k] == pre[k]);
                }
                if default_source(specs@[i as int]) == Some(q) {
                    assert(post[i as int] == specs@[i as int]);
                }
            }
        }
        i = i + 1;
    }
    proof {
        assert(specs@.take(specs@.len() as int) =~= specs@);
    }
}

} // verus!
