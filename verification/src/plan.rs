//! Validation planning: which rule batches a label needs, from indexes of
//! the spec tables (semantic rules, state effects, structural triggers).

use crate::predicates::{contains_code, seq_has};
use crate::profile::{has_page_dimension, spec_has_page_dimension, Profile};
use crate::tables::{entry_has_code, CommandEntry, ParserTables};
use crate::text::{chars_of, str_eq};
use vstd::prelude::*;

verus! {

broadcast use vstd::seq::group_seq_axioms;

/// No code occurs twice.
pub open spec fn no_dups(v: Seq<String>) -> bool {
    forall|i: int, j: int| 0 <= i < j < v.len() ==> (#[trigger] v[i])@ != (#[trigger] v[j])@
}

/// Adds `c` to a code set unless it is already there.
pub fn insert_code(v: &mut Vec<String>, c: &String)
    requires
        no_dups(old(v)@),
    ensures
        no_dups(final(v)@),
        forall|x: Seq<char>| #[trigger] seq_has(final(v)@, x) <==> (seq_has(old(v)@, x) || x == c@),
        final(v)@ == if seq_has(old(v)@, c@) {
            old(v)@
        } else {
            old(v)@.push(*c)
        },
{
    let cc = chars_of(c.as_str());
    if !contains_code(v, &cc) {
        let ghost before = v@;
        v.push(c.clone());
        proof {
            assert(v@ == before.push(v@.last()));
            assert(forall|x: Seq<char>| seq_has(v@, x) <==> (seq_has(before, x) || x == c@)) by {
                assert forall|x: Seq<char>| seq_has(v@, x) <== (seq_has(before, x) || x == c@) by {
                    if seq_has(before, x) {
                        let i = choose|i: int| 0 <= i < before.len() && (#[trigger] before[i])@ == x;
                        assert(v@[i] == before[i]);
                    } else {
                        assert(v@[v@.len() - 1]@ == c@);
                    }
                }
                assert forall|x: Seq<char>| seq_has(v@, x) ==> (seq_has(before, x) || x == c@) by {
                    if seq_has(v@, x) {
                        let i = choose|i: int| 0 <= i < v@.len() && (#[trigger] v@[i])@ == x;
                        if i < before.len() {
                            assert(v@[i] == before[i]);
                        }
                    }
                }
            }
            assert forall|i: int, j: int| 0 <= i < j < v@.len() implies (#[trigger] v@[i])@ != (#[trigger] v@[j])@ by {
                if j < before.len() {
                    assert(v@[i] == before[i] && v@[j] == before[j]);
                } else {
                    assert(v@[i] == before[i]);
                }
            }
        }
    }
}

/// Adds every code of `cs` to a code set.
pub fn insert_codes(v: &mut Vec<String>, cs: &Vec<String>)
    requires
        no_dups(old(v)@),
    ensures
        no_dups(final(v)@),
        forall|x: Seq<char>| #[trigger] seq_has(final(v)@, x) <==> (seq_has(old(v)@, x) || seq_has(cs@, x)),
{
    let mut i: usize = 0;
    while i < cs.len()
        invariant
            i <= cs.len(),
            no_dups(v@),
            forall|x: Seq<char>| seq_has(v@, x) <==> (seq_has(old(v)@, x) || seq_has(cs@.take(i as int), x)),
        decreases cs.len() - i,
    {
        let ghost before = v@;
        insert_code(v, &cs[i]);
        proof {
            assert forall|x: Seq<char>| seq_has(cs@.take(i + 1), x) <==> (seq_has(cs@.take(i as int), x) || x
                == cs@[i as int]@) by {
                if seq_has(cs@.take(i + 1), x) {
                    let k = choose|k: int| 0 <= k < cs@.take(i + 1).len() && (#[trigger] cs@.take(i + 1)[k])@ == x;
                    if k < i {
                        assert(cs@.take(i as int)[k] == cs@.take(i + 1)[k]);
                    }
                }
                if seq_has(cs@.take(i as int), x) {
                    let k = choose|k: int| 0 <= k < cs@.take(i as int).len() && (#[trigger] cs@.take(i as int)[k])@ == x;
                    assert(cs@.take(i + 1)[k] == cs@.take(i as int)[k]);
                }
                if x == cs@[i as int]@ {
                    assert(cs@.take(i + 1)[i as int] == cs@[i as int]);
                }
            }
        }
        i = i + 1;
    }
    assert(cs@.take(cs.len() as int) =~= cs@);
}

/// Code `x` is in one of the groups.
pub open spec fn in_groups(g: Seq<Vec<String>>, x: Seq<char>) -> bool {
    exists|i: int| 0 <= i < g.len() && seq_has(#[trigger] g[i]@, x)
}

/// Code `x` belongs to a command for which `f` holds.
pub open spec fn in_commands_where(cmds: Seq<CommandEntry>, f: spec_fn(CommandEntry) -> bool, x: Seq<char>) -> bool {
    exists|i: int| 0 <= i < cmds.len() && f(#[trigger] cmds[i]) && entry_has_code(cmds[i], x)
}

/// The codes of every group, as a set without repeats.
fn union_groups(g: &Vec<Vec<String>>) -> (r: Vec<String>)
    ensures
        no_dups(r@),
        forall|x: Seq<char>| seq_has(r@, x) <==> in_groups(g@, x),
{
    let mut out: Vec<String> = Vec::new();
    let mut i: usize = 0;
    while i < g.len()
        invariant
            i <= g.len(),
            no_dups(out@),
            forall|x: Seq<char>| seq_has(out@, x) <==> in_groups(g@.take(i as int), x),
        decreases g.len() - i,
    {
        let ghost before = out@;
        insert_codes(&mut out, &g[i]);
        proof {
            assert forall|x: Seq<char>| in_groups(g@.take(i + 1), x) <==> (in_groups(g@.take(i as int), x)
                || seq_has(g@[i as int]@, x)) by {
                if in_groups(g@.take(i + 1), x) {
                    let k = choose|k: int| 0 <= k < g@.take(i + 1).len() && seq_has(#[trigger] g@.take(i + 1)[k]@, x);
                    if k < i {
                        assert(g@.take(i as int)[k] == g@.take(i + 1)[k]);
                    }
                }
                if in_groups(g@.take(i as int), x) {
                    let k = choose|k: int| 0 <= k < g@.take(i as int).len() && seq_has(#[trigger] g@.take(i as int)[k]@, x);
                    assert(g@.take(i + 1)[k] == g@.take(i as int)[k]);
                }
                if seq_has(g@[i as int]@, x) {
                    assert(g@.take(i + 1)[i as int] == g@[i as int]);
                }
            }
            assert forall|x: Seq<char>| seq_has(out@, x) <==> in_groups(g@.take(i + 1), x) by {
                assert(seq_has(out@, x) <==> (seq_has(before, x) || seq_has(g@[i as int]@, x)));
                assert(seq_has(before, x) <==> in_groups(g@.take(i as int), x));
            }
        }
        i = i + 1;
    }
    assert(g@.take(g.len() as int) =~= g@);
    out
}

/// Which flag of a command entry a code list is built from.
#[derive(Debug, Clone, Copy, PartialEq, Eq, Structural)]
pub enum EntryFlag {
    /// Commands that have structural rules.
    StructuralRules,
    /// Commands that have state effects.
    Effects,
    /// Commands that open a field.
    OpensField,
    /// Commands that close a field.
    ClosesField,
    /// Commands that carry field data.
    FieldData,
    /// Commands that set a field number.
    FieldNumber,
    /// Commands that set up serialization.
    Serialization,
    /// Commands that must stand inside a field.
    RequiresField,
    /// Commands that turn on hex escapes.
    HexEscapeModifier,
}

/// Whether a command entry has the flag.
pub open spec fn entry_flag(e: CommandEntry, f: EntryFlag) -> bool {
    match f {
        EntryFlag::StructuralRules => e.structural_rules is Some,
        EntryFlag::Effects => e.has_effects,
        EntryFlag::OpensField => e.opens_field,
        EntryFlag::ClosesField => e.closes_field,
        EntryFlag::FieldData => e.field_data,
        EntryFlag::FieldNumber => e.field_number,
        EntryFlag::Serialization => e.serialization,
        EntryFlag::RequiresField => e.requires_field,
        EntryFlag::HexEscapeModifier => e.hex_escape_modifier,
    }
}

fn entry_flag_exec(e: &CommandEntry, f: EntryFlag) -> (r: bool)
    ensures
        r == entry_flag(*e, f),
{
    match f {
        EntryFlag::StructuralRules => e.structural_rules.is_some(),
        EntryFlag::Effects => e.has_effects,
        EntryFlag::OpensField => e.opens_field,
        EntryFlag::ClosesField => e.closes_field,
        EntryFlag::FieldData => e.field_data,
        EntryFlag::FieldNumber => e.field_number,
        EntryFlag::Serialization => e.serialization,
        EntryFlag::RequiresField => e.requires_field,
        EntryFlag::HexEscapeModifier => e.hex_escape_modifier,
    }
}

/// Code `x` belongs to a command with the flag.
pub open spec fn in_flagged(cmds: Seq<CommandEntry>, f: EntryFlag, x: Seq<char>) -> bool {
    exists|i: int| 0 <= i < cmds.len() && entry_flag(#[trigger] cmds[i], f) && entry_has_code(cmds[i], x)
}

/// The codes of every command with the flag, as a set without repeats.
fn flagged_codes(cmds: &Vec<CommandEntry>, f: EntryFlag) -> (r: Vec<String>)
    ensures
        no_dups(r@),
        forall|x: Seq<char>| seq_has(r@, x) <==> in_flagged(cmds@, f, x),
{
    let mut out: Vec<String> = Vec::new();
    let mut i: usize = 0;
    while i < cmds.len()
        invariant
            i <= cmds.len(),
            no_dups(out@),
            forall|x: Seq<char>| seq_has(out@, x) <==> in_flagged(cmds@.take(i as int), f, x),
        decreases cmds.len() - i,
    {
        let ghost before = out@;
        let on = entry_flag_exec(&cmds[i], f);
        if on {
            insert_codes(&mut out, &cmds[i].codes);
        }
        proof {
            assert forall|x: Seq<char>| in_flagged(cmds@.take(i + 1), f, x) <==> (in_flagged(cmds@.take(i as int), f, x)
                || (entry_flag(cmds@[i as int], f) && entry_has_code(cmds@[i as int], x))) by {
                if in_flagged(cmds@.take(i + 1), f, x) {
                    let k = choose|k: int| 0 <= k < cmds@.take(i + 1).len() && entry_flag(#[trigger] cmds@.take(i + 1)[k], f) && entry_has_code(cmds@.take(i + 1)[k], x);
                    if k < i {
                        assert(cmds@.take(i as int)[k] == cmds@.take(i + 1)[k]);
                    }
                }
                if in_flagged(cmds@.take(i as int), f, x) {
                    let k = choose|k: int| 0 <= k < cmds@.take(i as int).len() && entry_flag(#[trigger] cmds@.take(i as int)[k], f) && entry_has_code(cmds@.take(i as int)[k], x);
                    assert(cmds@.take(i + 1)[k] == cmds@.take(i as int)[k]);
                }
                if entry_flag(cmds@[i as int], f) && entry_has_code(cmds@[i as int], x) {
                    assert(cmds@.take(i + 1)[i as int] == cmds@[i as int]);
                }
            }
            assert forall|x: Seq<char>| seq_has(out@, x) <==> in_flagged(cmds@.take(i + 1), f, x) by {
                assert(seq_has(before, x) <==> in_flagged(cmds@.take(i as int), f, x));
                assert(in_flagged(cmds@.take(i + 1), f, x) <==> (in_flagged(cmds@.take(i as int), f, x)
                    || (entry_flag(cmds@[i as int], f) && entry_has_code(cmds@[i as int], x))));
                assert(seq_has(cmds@[i as int].codes@, x) <==> entry_has_code(cmds@[i as int], x));
                if on {
                    assert(seq_has(out@, x) <==> (seq_has(before, x) || seq_has(cmds@[i as int].codes@, x)));
                } else {
                    assert(out@ == before);
                }
            }
            assert forall|x: Seq<char>| seq_has(cmds@[i as int].codes@, x) <==> entry_has_code(cmds@[i as int], x) by {
                if seq_has(cmds@[i as int].codes@, x) {
                    let j = choose|j: int| 0 <= j < cmds@[i as int].codes@.len() && (#[trigger] cmds@[i as int].codes@[j])@ == x;
                    assert(0 <= j < cmds@[i as int].codes@.len() && (cmds@[i as int].codes@[j])@ == x);
                }
            }
        }
        i = i + 1;
    }
    assert(cmds@.take(cmds.len() as int) =~= cmds@);
    out
}

/// Codes of commands with semantic (structural) rules.
pub struct SemanticIndexView {
    /// The codes, each once.
    pub semantic_codes: Vec<String>,
}

/// Whether `x` is a semantic code of the tables: listed in the structural
/// rule index when the tables have one, else a code of a command with
/// structural rules.
pub open spec fn spec_semantic_code(t: ParserTables, x: Seq<char>) -> bool {
    match t.structural_rule_index {
        Some(idx) => in_groups(idx.by_kind@, x),
        None => in_flagged(t.commands@, EntryFlag::StructuralRules, x),
    }
}

/// Whether `x` is a state-producing code of the tables.
pub open spec fn spec_producer_code(t: ParserTables, x: Seq<char>) -> bool {
    match t.structural_rule_index {
        Some(idx) => in_groups(idx.by_effect@, x),
        None => in_flagged(t.commands@, EntryFlag::Effects, x),
    }
}

impl SemanticIndexView {
    /// The semantic codes of the tables.
    pub fn from_tables(tables: &ParserTables) -> (r: Option<SemanticIndexView>)
        ensures
            r matches Some(v) && no_dups(v.semantic_codes@) && forall|x: Seq<char>|
                seq_has(v.semantic_codes@, x) <==> spec_semantic_code(*tables, x),
    {
        let codes = match &tables.structural_rule_index {
            Some(idx) => union_groups(&idx.by_kind),
            None => flagged_codes(&tables.commands, EntryFlag::StructuralRules),
        };
        Some(SemanticIndexView { semantic_codes: codes })
    }

    /// Whether `code` is a semantic code.
    pub fn contains(&self, code: &str) -> (r: bool)
        ensures
            r == seq_has(self.semantic_codes@, code@),
    {
        contains_code(&self.semantic_codes, &chars_of(code))
    }
}

/// Codes of commands that produce state.
pub struct EffectIndexView {
    /// The codes, each once.
    pub producer_codes: Vec<String>,
}

impl EffectIndexView {
    /// The state-producing codes of the tables.
    pub fn from_tables(tables: &ParserTables) -> (r: Option<EffectIndexView>)
        ensures
            r matches Some(v) && no_dups(v.producer_codes@) && forall|x: Seq<char>|
                seq_has(v.producer_codes@, x) <==> spec_producer_code(*tables, x),
    {
        let codes = match &tables.structural_rule_index {
            Some(idx) => union_groups(&idx.by_effect),
            None => flagged_codes(&tables.commands, EntryFlag::Effects),
        };
        Some(EffectIndexView { producer_codes: codes })
    }

    /// Whether `code` produces state.
    pub fn contains(&self, code: &str) -> (r: bool)
        ensures
            r == seq_has(self.producer_codes@, code@),
    {
        contains_code(&self.producer_codes, &chars_of(code))
    }
}

/// The structural roles of a command.
#[derive(Debug, Clone, Copy)]
pub struct StructuralFlags {
    pub opens_field: bool,
    pub closes_field: bool,
    pub field_data: bool,
    pub field_number: bool,
    pub serialization: bool,
    pub requires_field: bool,
    pub hex_escape_modifier: bool,
}

impl StructuralFlags {
    /// Whether any role concerns fields.
    pub fn is_field_related(self) -> (r: bool)
        ensures
            r == (self.opens_field || self.closes_field || self.field_data || self.requires_field
                || self.hex_escape_modifier || self.field_number || self.serialization),
    {
        self.opens_field || self.closes_field || self.field_data || self.requires_field
            || self.hex_escape_modifier || self.field_number || self.serialization
    }
}

/// Codes per structural trigger.
pub struct StructuralIndexView {
    pub opens_field: Vec<String>,
    pub closes_field: Vec<String>,
    pub field_data: Vec<String>,
    pub field_number: Vec<String>,
    pub serialization: Vec<String>,
    pub requires_field: Vec<String>,
    pub hex_escape_modifier: Vec<String>,
}

/// The code list of a structural index for a flag.
pub open spec fn index_list(v: StructuralIndexView, f: EntryFlag) -> Seq<String> {
    match f {
        EntryFlag::OpensField => v.opens_field@,
        EntryFlag::ClosesField => v.closes_field@,
        EntryFlag::FieldData => v.field_data@,
        EntryFlag::FieldNumber => v.field_number@,
        EntryFlag::Serialization => v.serialization@,
        EntryFlag::RequiresField => v.requires_field@,
        EntryFlag::HexEscapeModifier => v.hex_escape_modifier@,
        _ => seq![],
    }
}

/// The flags a structural index covers.
pub open spec fn is_trigger_flag(f: EntryFlag) -> bool {
    f != EntryFlag::StructuralRules && f != EntryFlag::Effects
}

/// The code list of a structural rule index for a flag.
pub open spec fn rule_index_list(idx: crate::tables::StructuralRuleIndex, f: EntryFlag) -> Seq<String> {
    match f {
        EntryFlag::OpensField => idx.opens_field@,
        EntryFlag::ClosesField => idx.closes_field@,
        EntryFlag::FieldData => idx.field_data@,
        EntryFlag::FieldNumber => idx.field_number@,
        EntryFlag::Serialization => idx.serialization@,
        EntryFlag::RequiresField => idx.requires_field@,
        EntryFlag::HexEscapeModifier => idx.hex_escape_modifier@,
        _ => seq![],
    }
}

/// Whether `x` has the structural role `f` in the tables: listed for the
/// trigger in the rule index when there is one, else a code of a command
/// with the flag.
pub open spec fn spec_trigger_code(t: ParserTables, f: EntryFlag, x: Seq<char>) -> bool {
    match t.structural_rule_index {
        Some(idx) => seq_has(rule_index_list(idx, f), x),
        None => in_flagged(t.commands@, f, x),
    }
}

fn copy_codes(v: &Vec<String>) -> (r: Vec<String>)
    ensures
        no_dups(r@),
        forall|x: Seq<char>| seq_has(r@, x) <==> seq_has(v@, x),
{
    let mut out: Vec<String> = Vec::new();
    insert_codes(&mut out, v);
    out
}

impl StructuralIndexView {
    /// The structural trigger codes of the tables.
    pub fn from_tables(tables: &ParserTables) -> (r: Option<StructuralIndexView>)
        ensures
            r matches Some(v) && forall|f: EntryFlag, x: Seq<char>|
                is_trigger_flag(f) ==> (#[trigger] seq_has(index_list(v, f), x) <==> spec_trigger_code(*tables, f, x)),
    {
        match &tables.structural_rule_index {
            Some(idx) => {
                let v = StructuralIndexView {
                    opens_field: copy_codes(&idx.opens_field),
                    closes_field: copy_codes(&idx.closes_field),
                    field_data: copy_codes(&idx.field_data),
                    field_number: copy_codes(&idx.field_number),
                    serialization: copy_codes(&idx.serialization),
                    requires_field: copy_codes(&idx.requires_field),
                    hex_escape_modifier: copy_codes(&idx.hex_escape_modifier),
                };
                Some(v)
            },
            None => {
                let cmds = &tables.commands;
                let v = StructuralIndexView {
                    opens_field: flagged_codes(cmds, EntryFlag::OpensField),
                    closes_field: flagged_codes(cmds, EntryFlag::ClosesField),
                    field_data: flagged_codes(cmds, EntryFlag::FieldData),
                    field_number: flagged_codes(cmds, EntryFlag::FieldNumber),
                    serialization: flagged_codes(cmds, EntryFlag::Serialization),
                    requires_field: flagged_codes(cmds, EntryFlag::RequiresField),
                    hex_escape_modifier: flagged_codes(cmds, EntryFlag::HexEscapeModifier),
                };
                Some(v)
            },
        }
    }
}

/// Which rule batches a label needs.
#[derive(Debug, Clone, Copy)]
pub struct LabelExecutionPlan {
    pub run_semantic_batch: bool,
    pub run_effect_batch: bool,
    pub run_field_batch: bool,
    pub run_preflight_gf_memory: bool,
    pub run_preflight_missing_dimensions: bool,
}

/// Some code of `list` is among the label's codes.
pub open spec fn any_in_label(list: Seq<String>, label: Seq<String>) -> bool {
    exists|i: int| 0 <= i < list.len() && seq_has(label, (#[trigger] list[i])@)
}

fn any_in_label_exec(list: &Vec<String>, label: &Vec<String>) -> (r: bool)
    ensures
        r == any_in_label(list@, label@),
{
    let mut i: usize = 0;
    while i < list.len()
        invariant
            i <= list.len(),
            forall|j: int| 0 <= j < i ==> !seq_has(label@, (#[trigger] list@[j])@),
        decreases list.len() - i,
    {
        if contains_code(label, &chars_of(list[i].as_str())) {
            return true;
        }
        i = i + 1;
    }
    false
}

impl LabelExecutionPlan {
    /// The plan for a label with the given codes from the given indexes
    /// (see [`spec_plan_from`]).
    pub fn from_indexes(
        label_codes: &Vec<String>,
        semantic_index: Option<&SemanticIndexView>,
        effect_index: Option<&EffectIndexView>,
        structural_index: Option<&StructuralIndexView>,
        profile: Option<&Profile>,
    ) -> (r: LabelExecutionPlan)
        ensures
            r == spec_plan_from(
                match semantic_index {
                    Some(i) => Some(*i),
                    None => None,
                },
                match effect_index {
                    Some(i) => Some(*i),
                    None => None,
                },
                match structural_index {
                    Some(i) => Some(*i),
                    None => None,
                },
                label_codes@,
                match profile {
                    Some(p) => Some(*p),
                    None => None,
                },
            ),
    {
        let run_semantic_batch = match semantic_index {
            Some(idx) => idx.semantic_codes.len() == 0 || any_in_label_exec(&idx.semantic_codes, label_codes),
            None => true,
        };
        let run_effect_batch = match effect_index {
            Some(idx) => any_in_label_exec(&idx.producer_codes, label_codes),
            None => true,
        };
        let run_field_batch = match structural_index {
            Some(idx) => any_in_label_exec(&idx.opens_field, label_codes) || any_in_label_exec(
                &idx.closes_field,
                label_codes,
            ) || any_in_label_exec(&idx.field_data, label_codes) || any_in_label_exec(
                &idx.requires_field,
                label_codes,
            ) || any_in_label_exec(&idx.hex_escape_modifier, label_codes) || any_in_label_exec(
                &idx.field_number,
                label_codes,
            ) || any_in_label_exec(&idx.serialization, label_codes),
            None => true,
        };
        let gf = chars_of("^GF");
        let run_preflight_gf_memory = contains_code(label_codes, &gf);
        let run_preflight_missing_dimensions = match profile {
            Some(p) => has_page_dimension(p),
            None => false,
        };
        LabelExecutionPlan {
            run_semantic_batch,
            run_effect_batch,
            run_field_batch,
            run_preflight_gf_memory,
            run_preflight_missing_dimensions,
        }
    }
}

/// The indexes a validation run plans with.
pub struct ValidationPlanContext {
    pub semantic_index: Option<SemanticIndexView>,
    pub effect_index: Option<EffectIndexView>,
    pub structural_index: Option<StructuralIndexView>,
}

/// The plan for a label with codes `label`: the semantic batch runs unless
/// the semantic index is present, non-empty and shares no code with the
/// label; the effect batch runs unless the effect index is present and
/// shares none; the field batch runs unless the structural index is present
/// and none of its codes is in the label; the graphic memory preflight runs
/// when the label has `^GF`; the dimension preflight runs when the profile
/// gives a page width or height.
pub open spec fn spec_plan(
    ctx: ValidationPlanContext,
    label: Seq<String>,
    profile: Option<Profile>,
) -> LabelExecutionPlan {
    spec_plan_from(ctx.semantic_index, ctx.effect_index, ctx.structural_index, label, profile)
}

/// The plan for a label with codes `label` from the given indexes (see
/// [`spec_plan`]).
pub open spec fn spec_plan_from(
    semantic_index: Option<SemanticIndexView>,
    effect_index: Option<EffectIndexView>,
    structural_index: Option<StructuralIndexView>,
    label: Seq<String>,
    profile: Option<Profile>,
) -> LabelExecutionPlan {
    LabelExecutionPlan {
        run_semantic_batch: match semantic_index {
            Some(idx) => idx.semantic_codes@.len() == 0 || any_in_label(idx.semantic_codes@, label),
            None => true,
        },
        run_effect_batch: match effect_index {
            Some(idx) => any_in_label(idx.producer_codes@, label),
            None => true,
        },
        run_field_batch: match structural_index {
            Some(idx) => any_in_label(idx.opens_field@, label) || any_in_label(idx.closes_field@, label)
                || any_in_label(idx.field_data@, label) || any_in_label(idx.requires_field@, label)
                || any_in_label(idx.hex_escape_modifier@, label) || any_in_label(idx.field_number@, label)
                || any_in_label(idx.serialization@, label),
            None => true,
        },
        run_preflight_gf_memory: seq_has(label, "^GF"@),
        run_preflight_missing_dimensions: match profile {
            Some(p) => spec_has_page_dimension(p),
            None => false,
        },
    }
}

/// The structural flags of `code`: from the structural index when there is
/// one (membership), else the command entry's own flags.
pub open spec fn spec_flags(ctx: ValidationPlanContext, code: Seq<char>, cmd: CommandEntry) -> StructuralFlags {
    match ctx.structural_index {
        Some(idx) => StructuralFlags {
            opens_field: seq_has(idx.opens_field@, code),
            closes_field: seq_has(idx.closes_field@, code),
            field_data: seq_has(idx.field_data@, code),
            field_number: seq_has(idx.field_number@, code),
            serialization: seq_has(idx.serialization@, code),
            requires_field: seq_has(idx.requires_field@, code),
            hex_escape_modifier: seq_has(idx.hex_escape_modifier@, code),
        },
        None => StructuralFlags {
            opens_field: cmd.opens_field,
            closes_field: cmd.closes_field,
            field_data: cmd.field_data,
            field_number: cmd.field_number,
            serialization: cmd.serialization,
            requires_field: cmd.requires_field,
            hex_escape_modifier: cmd.hex_escape_modifier,
        },
    }
}

impl ValidationPlanContext {
    /// The planning indexes of the tables.
    pub fn from_tables(tables: &ParserTables) -> (r: ValidationPlanContext)
        ensures
            r.semantic_index matches Some(v) && forall|x: Seq<char>|
                seq_has(v.semantic_codes@, x) <==> spec_semantic_code(*tables, x),
            r.effect_index matches Some(v) && forall|x: Seq<char>|
                seq_has(v.producer_codes@, x) <==> spec_producer_code(*tables, x),
            r.structural_index matches Some(v) && forall|f: EntryFlag, x: Seq<char>|
                is_trigger_flag(f) ==> (#[trigger] seq_has(index_list(v, f), x) <==> spec_trigger_code(*tables, f, x)),
    {
        ValidationPlanContext {
            semantic_index: SemanticIndexView::from_tables(tables),
            effect_index: EffectIndexView::from_tables(tables),
            structural_index: StructuralIndexView::from_tables(tables),
        }
    }

    /// A context from given indexes.
    pub fn from_views(
        semantic_index: Option<SemanticIndexView>,
        effect_index: Option<EffectIndexView>,
        structural_index: Option<StructuralIndexView>,
    ) -> (r: ValidationPlanContext)
        ensures
            r.semantic_index == semantic_index,
            r.effect_index == effect_index,
            r.structural_index == structural_index,
    {
        ValidationPlanContext { semantic_index, effect_index, structural_index }
    }

    /// The plan for a label with the given codes (see [`spec_plan`]).
    pub fn plan_for_label(&self, label_codes: &Vec<String>, profile: Option<&Profile>) -> (r: LabelExecutionPlan)
        ensures
            r == spec_plan(*self, label_codes@, match profile {
                Some(p) => Some(*p),
                None => None,
            }),
    {
        LabelExecutionPlan::from_indexes(
            label_codes,
            self.semantic_index.as_ref(),
            self.effect_index.as_ref(),
            self.structural_index.as_ref(),
            profile,
        )
    }

    /// Whether the structural semantics of a command run: when it has its
    /// own structural rules, or when the plan runs the semantic batch.
    pub fn should_run_structural_semantics(
        &self,
        code: &str,
        cmd_has_structural_rules: bool,
        plan: &LabelExecutionPlan,
    ) -> (r: bool)
        ensures
            r == (cmd_has_structural_rules || plan.run_semantic_batch),
    {
        cmd_has_structural_rules || plan.run_semantic_batch
    }

    /// Whether a command produces state: it has effects of its own, or the
    /// plan runs the effect batch and the effect index lists it.
    pub fn is_effect_producer(&self, code: &str, cmd_has_effects: bool, plan: &LabelExecutionPlan) -> (r: bool)
        ensures
            r == (cmd_has_effects || (plan.run_effect_batch && match self.effect_index {
                Some(idx) => seq_has(idx.producer_codes@, code@),
                None => false,
            })),
    {
        if cmd_has_effects {
            return true;
        }
        if !plan.run_effect_batch {
            return false;
        }
        match &self.effect_index {
            Some(idx) => idx.contains(code),
            None => false,
        }
    }

    /// Whether `code` opens a field: its membership in the structural index when
    /// there is one, else the command's own flag.
    pub fn opens_field(&self, code: &str, cmd_opens_field: bool) -> (r: bool)
        ensures
            r == match self.structural_index {
                Some(idx) => seq_has(idx.opens_field@, code@),
                None => cmd_opens_field,
            },
    {
        match &self.structural_index {
            Some(idx) => contains_code(&idx.opens_field, &chars_of(code)),
            None => cmd_opens_field,
        }
    }

    /// Whether `code` closes a field: its membership in the structural index when
    /// there is one, else the command's own flag.
    pub fn closes_field(&self, code: &str, cmd_closes_field: bool) -> (r: bool)
        ensures
            r == match self.structural_index {
                Some(idx) => seq_has(idx.closes_field@, code@),
                None => cmd_closes_field,
            },
    {
        match &self.structural_index {
            Some(idx) => contains_code(&idx.closes_field, &chars_of(code)),
            None => cmd_closes_field,
        }
    }

    /// Whether `code` carries field data: its membership in the structural index when
    /// there is one, else the command's own flag.
    pub fn field_data(&self, code: &str, cmd_field_data: bool) -> (r: bool)
        ensures
            r == match self.structural_index {
                Some(idx) => seq_has(idx.field_data@, code@),
                None => cmd_field_data,
            },
    {
        match &self.structural_index {
            Some(idx) => contains_code(&idx.field_data, &chars_of(code)),
            None => cmd_field_data,
        }
    }

    /// Whether `code` must stand inside a field: its membership in the structural index when
    /// there is one, else the command's own flag.
    pub fn requires_field(&self, code: &str, cmd_requires_field: bool) -> (r: bool)
        ensures
            r == match self.structural_index {
                Some(idx) => seq_has(idx.requires_field@, code@),
                None => cmd_requires_field,
            },
    {
        match &self.structural_index {
            Some(idx) => contains_code(&idx.requires_field, &chars_of(code)),
            None => cmd_requires_field,
        }
    }

    /// Whether `code` turns on hex escapes: its membership in the structural index when
    /// there is one, else the command's own flag.
    pub fn hex_escape_modifier(&self, code: &str, cmd_hex_escape_modifier: bool) -> (r: bool)
        ensures
            r == match self.structural_index {
                Some(idx) => seq_has(idx.hex_escape_modifier@, code@),
                None => cmd_hex_escape_modifier,
            },
    {
        match &self.structural_index {
            Some(idx) => contains_code(&idx.hex_escape_modifier, &chars_of(code)),
            None => cmd_hex_escape_modifier,
        }
    }

    /// Whether `code` sets a field number: its membership in the structural index when
    /// there is one, else the command's own flag.
    pub fn field_number(&self, code: &str, cmd_field_number: bool) -> (r: bool)
        ensures
            r == match self.structural_index {
                Some(idx) => seq_has(idx.field_number@, code@),
                None => cmd_field_number,
            },
    {
        match &self.structural_index {
            Some(idx) => contains_code(&idx.field_number, &chars_of(code)),
            None => cmd_field_number,
        }
    }

    /// Whether `code` sets up serialization: its membership in the structural index when
    /// there is one, else the command's own flag.
    pub fn serialization(&self, code: &str, cmd_serialization: bool) -> (r: bool)
        ensures
            r == match self.structural_index {
                Some(idx) => seq_has(idx.serialization@, code@),
                None => cmd_serialization,
            },
    {
        match &self.structural_index {
            Some(idx) => contains_code(&idx.serialization, &chars_of(code)),
            None => cmd_serialization,
        }
    }

    /// The structural flags of `code` (see [`spec_flags`]).
    pub fn resolve_structural_flags(&self, code: &str, cmd: &CommandEntry) -> (r: StructuralFlags)
        ensures
            r == spec_flags(*self, code@, *cmd),
    {
        StructuralFlags {
            opens_field: self.opens_field(code, cmd.opens_field),
            closes_field: self.closes_field(code, cmd.closes_field),
            field_data: self.field_data(code, cmd.field_data),
            field_number: self.field_number(code, cmd.field_number),
            serialization: self.serialization(code, cmd.serialization),
            requires_field: self.requires_field(code, cmd.requires_field),
            hex_escape_modifier: self.hex_escape_modifier(code, cmd.hex_escape_modifier),
        }
    }
}

} // verus!
