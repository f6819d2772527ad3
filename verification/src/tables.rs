//! Spec tables: the per-command metadata (signatures, structural flags,
//! constraints) that drives parsing, formatting and validation.

use crate::text::str_eq;
use vstd::prelude::*;

verus! {

/// How whitespace between an opcode and its arguments is treated.
#[derive(Debug, Clone, Copy, PartialEq, Eq, Structural)]
pub enum SpacingPolicy {
    /// A space is an error.
    Forbid,
    /// A space is required.
    Require,
    /// Either is accepted.
    Allow,
}

/// A rule that splits one raw parameter into several by character counts
/// (e.g. `^A` font + orientation).
#[derive(Debug, Clone)]
pub struct SplitRule {
    /// Index of the raw parameter that is split.
    pub param_index: usize,
    /// Number of characters of each part.
    pub char_counts: Vec<usize>,
}

/// A command's argument signature.
#[derive(Debug, Clone)]
pub struct Signature {
    /// Parameter names, in order.
    pub params: Vec<String>,
    /// Separator between arguments (`,` for most commands; empty for free text).
    pub joiner: String,
    /// Whether no space is written between opcode and arguments.
    pub no_space_after_opcode: bool,
    /// Whether missing trailing arguments are padded as empty slots.
    pub allow_empty_trailing: bool,
    /// Optional parameter split rule.
    pub split_rule: Option<SplitRule>,
    /// Whitespace policy between opcode and arguments.
    pub spacing_policy: SpacingPolicy,
}

/// Severity declared for a constraint.
#[derive(Debug, Clone, Copy, PartialEq, Eq, Structural)]
pub enum ConstraintSeverity {
    Error,
    Warn,
    Info,
}

/// The kind of a command constraint.
#[derive(Debug, Clone, Copy, PartialEq, Eq, Structural)]
pub enum ConstraintKind {
    Order,
    Requires,
    Incompatible,
    EmptyData,
    Note,
    Range,
    Custom,
}

/// The scope in which a constraint is evaluated.
#[derive(Debug, Clone, Copy, PartialEq, Eq, Structural)]
pub enum ConstraintScope {
    Label,
    Field,
}

/// The scope a command's state applies to.
#[derive(Debug, Clone, Copy, PartialEq, Eq, Structural)]
pub enum CommandScope {
    Field,
    Label,
    Session,
    Document,
}

/// Who a note is written for.
#[derive(Debug, Clone, Copy, PartialEq, Eq, Structural)]
pub enum NoteAudience {
    Problem,
    Contextual,
}

/// A declarative constraint on a command.
#[derive(Debug, Clone)]
pub struct Constraint {
    pub kind: ConstraintKind,
    pub expr: Option<String>,
    pub message: String,
    pub severity: Option<ConstraintSeverity>,
    pub scope: Option<ConstraintScope>,
    pub audience: Option<NoteAudience>,
}

/// Rules that barcode field data must satisfy.
#[derive(Debug, Clone)]
pub struct FieldDataRules {
    pub character_set: Option<String>,
    pub character_set_severity: Option<ConstraintSeverity>,
    pub exact_length: Option<usize>,
    pub allowed_lengths: Option<Vec<usize>>,
    pub min_length: Option<usize>,
    pub max_length: Option<usize>,
    pub length_parity: Option<String>,
    pub length_severity: Option<ConstraintSeverity>,
}

/// One command of the spec tables (possibly with several code aliases).
#[derive(Debug, Clone)]
pub struct CommandEntry {
    /// All codes of the command, canonical leader included (e.g. `"^FO"`).
    pub codes: Vec<String>,
    /// Maximum number of arguments.
    pub arity: u32,
    /// Starts field data (`^FD`, `^FV`).
    pub field_data: bool,
    /// Followed by a raw payload (`^GF`, `~DG`).
    pub raw_payload: bool,
    /// Opens a field (`^FO`, `^FT`).
    pub opens_field: bool,
    /// Closes a field (`^FS`).
    pub closes_field: bool,
    /// Enables hex escapes in the current field (`^FH`).
    pub hex_escape_modifier: bool,
    /// Sets a field number (`^FN`).
    pub field_number: bool,
    /// Serializes field data (`^SN`, `^SF`).
    pub serialization: bool,
    /// Must appear inside a field.
    pub requires_field: bool,
    /// Default signature.
    pub signature: Option<Signature>,
    /// Per-code signature overrides.
    pub signature_overrides: Option<Vec<(String, Signature)>>,
    /// Scope of the command's state.
    pub scope: Option<CommandScope>,
    /// Declarative constraints.
    pub constraints: Option<Vec<Constraint>>,
    /// Default severity of the command's constraints.
    pub constraint_default_severity: Option<ConstraintSeverity>,
    /// Whether the command declares state effects.
    pub has_effects: bool,
    /// Structural semantic rules the command declares.
    pub structural_rules: Option<Vec<StructuralRule>>,
    /// Barcode field data rules.
    pub field_data_rules: Option<FieldDataRules>,
    /// Printer capabilities the command needs.
    pub printer_gates: Option<Vec<String>>,
    /// The plane the command belongs to.
    pub plane: Option<Plane>,
    /// Where the command may appear relative to a label.
    pub placement: Option<Placement>,
    /// The specs of the command's arguments, by position.
    pub args: Option<Vec<ArgUnion>>,
}

/// The plane a command belongs to.
#[derive(Debug, Clone, Copy, PartialEq, Eq, Structural)]
pub enum Plane {
    /// Label formatting.
    Format,
    /// Device control.
    Device,
    /// Host communication.
    Host,
    /// Printer configuration.
    Config,
}

/// Where a command may appear relative to a label (`^XA` ... `^XZ`).
#[derive(Debug, Clone, Copy)]
pub struct Placement {
    /// Whether the command may appear inside a label.
    pub allowed_inside_label: Option<bool>,
    /// Whether the command may appear outside a label.
    pub allowed_outside_label: Option<bool>,
}

/// What a position-bounds rule does for its command.
#[derive(Debug, Clone, Copy, PartialEq, Eq, Structural)]
pub enum PositionBoundsAction {
    /// Records the label width (`^PW`).
    TrackWidth,
    /// Records the label height (`^LL`).
    TrackHeight,
    /// Checks a field origin against the label bounds (`^FO`, `^FT`).
    CheckBounds,
}

/// What a font-reference rule does for its command.
#[derive(Debug, Clone, Copy, PartialEq, Eq, Structural)]
pub enum FontReferenceAction {
    /// Loads a font under a name (`^CW`).
    Register,
    /// Uses a font that must be built in or loaded (`^A`).
    Validate,
}

/// Which media facts of the profile a media-modes rule checks against.
#[derive(Debug, Clone, Copy, PartialEq, Eq, Structural)]
pub enum MediaModesTarget {
    /// The supported print modes (`^MM`).
    SupportedModes,
    /// The supported media tracking modes (`^MN`).
    SupportedTracking,
    /// The print method (`^MT`).
    PrintMethod,
}

/// A structural semantic rule of a command.
#[derive(Debug, Clone, Copy)]
pub enum StructuralRule {
    /// The argument is a field number that must not repeat in a label.
    DuplicateFieldNumber { arg_index: usize },
    /// The command records or checks label bounds.
    PositionBounds { action: PositionBoundsAction },
    /// The argument names a font to load or use.
    FontReference { action: FontReferenceAction, arg_index: usize },
    /// The argument is a media mode the profile must support.
    MediaModes { target: MediaModesTarget, arg_index: usize },
    /// Graphic data whose length must match its declared size.
    GfDataLength { compression_arg_index: usize, declared_byte_count_arg_index: usize, data_arg_index: usize },
    /// Graphic data counted toward the label's memory use and bounds.
    GfPreflightTracking { graphic_field_count_arg_index: usize, bytes_per_row_arg_index: usize },
}

/// A value an enumerated argument accepts.
#[derive(Debug, Clone)]
pub enum EnumValue {
    /// A bare value.
    Simple(String),
    /// A value with metadata: the printer capabilities it needs.
    Object {
        /// The value itself.
        value: String,
        /// Capability gates the value requires, if any.
        printer_gates: Option<Vec<String>>,
    },
}

/// The spec of one command argument, as far as the checks on its text go.
#[derive(Debug, Clone)]
pub struct Arg {
    /// The argument's type: `enum`, `int`, `float`, `char`, `string`, ...
    pub arg_type: String,
    /// The values an enumerated argument accepts.
    pub enum_values: Option<Vec<EnumValue>>,
    /// Minimum length of the argument's text, in bytes.
    pub min_length: Option<u32>,
    /// Maximum length of the argument's text, in bytes.
    pub max_length: Option<u32>,
    /// Whether the argument may be left out.
    pub optional: bool,
    /// The argument's default value.
    pub default: Option<ArgDefault>,
    /// Defaults per printer resolution, keyed by the resolution's decimal text.
    pub default_by_dpi: Option<Vec<(String, ArgDefault)>>,
    /// The producer command whose state supplies the default.
    pub default_from: Option<String>,
    /// The key of the producer's value that supplies the default.
    pub default_from_state_key: Option<String>,
}

/// A default value from the spec tables.
#[derive(Debug, Clone)]
pub enum ArgDefault {
    /// A default with a textual form: a string, a number, or `Y`/`N` for a boolean.
    Text(String),
    /// A default with no textual form.
    Other,
}

/// An argument spec: one spec, or alternatives chosen by the value.
#[derive(Debug, Clone)]
pub enum ArgUnion {
    /// A single spec.
    Single(Arg),
    /// Alternative specs.
    OneOf { one_of: Vec<Arg> },
}

/// A node of the opcode trie, stored in an arena.
#[derive(Debug, Clone)]
pub struct TrieNode {
    /// Outgoing edges: character and index of the child node.
    pub children: Vec<(char, usize)>,
    /// Whether the path to this node spells a complete opcode.
    pub terminal: bool,
}

/// Opcode trie: node 0 is the root, whose children are keyed by leader.
#[derive(Debug, Clone)]
pub struct OpcodeTrie {
    pub nodes: Vec<TrieNode>,
}

/// Index of semantic codes by structural trigger.
#[derive(Debug, Clone)]
pub struct StructuralRuleIndex {
    /// Codes of commands with structural rules, grouped by rule kind.
    pub by_kind: Vec<Vec<String>>,
    /// Codes of commands with state effects, grouped by effect.
    pub by_effect: Vec<Vec<String>>,
    /// Codes per structural trigger: opens field, closes field, field data,
    /// field number, serialization, requires field, hex escape modifier.
    pub opens_field: Vec<String>,
    pub closes_field: Vec<String>,
    pub field_data: Vec<String>,
    pub field_number: Vec<String>,
    pub serialization: Vec<String>,
    pub requires_field: Vec<String>,
    pub hex_escape_modifier: Vec<String>,
}

/// The spec tables used by the parser, emitter and validator.
#[derive(Debug, Clone)]
pub struct ParserTables {
    pub commands: Vec<CommandEntry>,
    pub opcode_trie: Option<OpcodeTrie>,
    pub structural_rule_index: Option<StructuralRuleIndex>,
}

/// Whether a command lists `code` among its codes.
pub open spec fn entry_has_code(e: CommandEntry, code: Seq<char>) -> bool {
    exists|j: int| 0 <= j < e.codes@.len() && (#[trigger] e.codes@[j])@ == code
}

/// Index of the first command that lists `code`.
pub open spec fn first_cmd_index(cmds: Seq<CommandEntry>, code: Seq<char>) -> Option<int>
    decreases cmds.len(),
{
    if cmds.len() == 0 {
        None
    } else {
        match first_cmd_index(cmds.drop_last(), code) {
            Some(i) => Some(i),
            None => if entry_has_code(cmds.last(), code) {
                Some(cmds.len() - 1)
            } else {
                None
            },
        }
    }
}

/// The command entry that `code` resolves to, if any.
pub open spec fn spec_cmd(t: ParserTables, code: Seq<char>) -> Option<CommandEntry> {
    match first_cmd_index(t.commands@, code) {
        Some(i) => Some(t.commands@[i]),
        None => None,
    }
}

/// Whether `code` is a known command code.
pub open spec fn spec_known(t: ParserTables, code: Seq<char>) -> bool {
    exists|i: int| 0 <= i < t.commands@.len() && entry_has_code(#[trigger] t.commands@[i], code)
}

/// The first override for `code`, if any.
pub open spec fn first_override(ovs: Seq<(String, Signature)>, code: Seq<char>) -> Option<Signature>
    decreases ovs.len(),
{
    if ovs.len() == 0 {
        None
    } else if ovs[0].0@ == code {
        Some(ovs[0].1)
    } else {
        first_override(ovs.drop_first(), code)
    }
}

/// The signature in effect for `code` in entry `e`: an override for the
/// code, else the entry's default signature.
pub open spec fn spec_entry_signature(e: CommandEntry, code: Seq<char>) -> Option<Signature> {
    let ov = match e.signature_overrides {
        Some(v) => first_override(v@, code),
        None => None,
    };
    match ov {
        Some(s) => Some(s),
        None => e.signature,
    }
}

/// The signature in effect for `code` in optional tables.
pub open spec fn spec_signature(t: Option<ParserTables>, code: Seq<char>) -> Option<Signature> {
    match t {
        Some(t) => match spec_cmd(t, code) {
            Some(e) => spec_entry_signature(e, code),
            None => None,
        },
        None => None,
    }
}

/// The command entry for `code` in optional tables.
pub open spec fn spec_lookup(t: Option<ParserTables>, code: Seq<char>) -> Option<CommandEntry> {
    match t {
        Some(t) => spec_cmd(t, code),
        None => None,
    }
}

impl CommandEntry {
    /// Whether this entry lists `code`.
    pub fn has_code(&self, code: &str) -> (r: bool)
        ensures
            r == entry_has_code(*self, code@),
    {
        let mut j: usize = 0;
        while j < self.codes.len()
            invariant
                j <= self.codes.len(),
                forall|k: int| 0 <= k < j ==> (#[trigger] self.codes@[k])@ != code@,
            decreases self.codes.len() - j,
        {
            if str_eq(self.codes[j].as_str(), code) {
                return true;
            }
            j = j + 1;
        }
        false
    }

    /// The signature in effect for `code`.
    pub fn effective_signature(&self, code: &str) -> (r: Option<&Signature>)
        ensures
            r matches Some(s) ==> spec_entry_signature(*self, code@) == Some(*s),
            r is None ==> spec_entry_signature(*self, code@) is None,
    {
        if let Some(ovs) = &self.signature_overrides {
            let mut j: usize = 0;
            assert(ovs@.skip(0) =~= ovs@);
            while j < ovs.len()
                invariant
                    j <= ovs.len(),
                    self.signature_overrides == Some(*ovs),
                    first_override(ovs@, code@) == first_override(ovs@.skip(j as int), code@),
                decreases ovs.len() - j,
            {
                assert(ovs@.skip(j as int).drop_first() =~= ovs@.skip(j + 1));
                assert(ovs@.skip(j as int)[0] == ovs@[j as int]);
                if str_eq(ovs[j].0.as_str(), code) {
                    assert(ovs@.skip(j as int).len() > 0);
                    assert(first_override(ovs@.skip(j as int), code@) == Some(ovs@[j as int].1));
                    assert(self.signature_overrides == Some(*ovs));
                    return Some(&ovs[j].1);
                }
                j = j + 1;
            }
            assert(ovs@.skip(j as int).len() == 0);
        }
        match &self.signature {
            Some(s) => Some(s),
            None => None,
        }
    }
}

proof fn lemma_first_cmd_index_prefix(cmds: Seq<CommandEntry>, code: Seq<char>, n: int)
    requires
        0 <= n <= cmds.len(),
    ensures
        first_cmd_index(cmds.take(n), code) matches Some(i) ==> 0 <= i < n && entry_has_code(
            cmds[i],
            code,
        ),
        first_cmd_index(cmds.take(n), code) is None ==> forall|i: int|
            0 <= i < n ==> !entry_has_code(#[trigger] cmds[i], code),
    decreases n,
{
    if n > 0 {
        lemma_first_cmd_index_prefix(cmds, code, n - 1);
        assert(cmds.take(n).drop_last() =~= cmds.take(n - 1));
    }
}

impl ParserTables {
    /// The command entry that `code` resolves to (the first that lists it).
    pub fn cmd_by_code(&self, code: &str) -> (r: Option<&CommandEntry>)
        ensures
            r matches Some(e) ==> spec_cmd(*self, code@) == Some(*e),
            r is None ==> spec_cmd(*self, code@) is None,
            r is Some <==> spec_known(*self, code@),
    {
        let mut i: usize = 0;
        while i < self.commands.len()
            invariant
                i <= self.commands.len(),
                forall|k: int| 0 <= k < i ==> !entry_has_code(#[trigger] self.commands@[k], code@),
            decreases self.commands.len() - i,
        {
            if self.commands[i].has_code(code) {
                proof {
                    lemma_first_cmd_index_prefix(self.commands@, code@, i as int);
                    lemma_first_cmd_index_prefix(self.commands@, code@, i + 1);
                    assert(self.commands@.take(i + 1).drop_last() =~= self.commands@.take(i as int));
                    assert(self.commands@.take(self.commands@.len() as int) =~= self.commands@);
                    lemma_first_index_stable(self.commands@, code@, i + 1);
                }
                return Some(&self.commands[i]);
            }
            i = i + 1;
        }
        proof {
            lemma_first_cmd_index_prefix(self.commands@, code@, self.commands@.len() as int);
            assert(self.commands@.take(self.commands@.len() as int) =~= self.commands@);
        }
        None
    }

    /// Whether `code` is a known command code.
    pub fn is_known_code(&self, code: &str) -> (r: bool)
        ensures
            r == spec_known(*self, code@),
    {
        self.cmd_by_code(code).is_some()
    }
}

/// Once a prefix finds the code, every longer prefix finds the same index.
proof fn lemma_first_index_stable(cmds: Seq<CommandEntry>, code: Seq<char>, n: int)
    requires
        0 < n <= cmds.len(),
        first_cmd_index(cmds.take(n), code) is Some,
    ensures
        first_cmd_index(cmds, code) == first_cmd_index(cmds.take(n), code),
    decreases cmds.len() - n,
{
    if n < cmds.len() {
        assert(cmds.take(n + 1).drop_last() =~= cmds.take(n));
        lemma_first_index_stable(cmds, code, n + 1);
    } else {
        assert(cmds.take(n) =~= cmds);
    }
}

/// The tables behind an optional reference.
pub open spec fn opt_tables(t: Option<&ParserTables>) -> Option<ParserTables> {
    match t {
        Some(t) => Some(*t),
        None => None,
    }
}

/// Looks up the command entry for `code` in optional tables.
pub fn lookup_command<'a>(tables: Option<&'a ParserTables>, code: &str) -> (r: Option<&'a CommandEntry>)
    ensures
        r matches Some(e) ==> spec_lookup(opt_tables(tables), code@) == Some(*e),
        r is None ==> spec_lookup(opt_tables(tables), code@) is None,
{
    match tables {
        Some(t) => t.cmd_by_code(code),
        None => None,
    }
}

/// The signature in effect for `code` in optional tables.
pub fn effective_signature<'a>(tables: Option<&'a ParserTables>, code: &str) -> (r: Option<&'a Signature>)
    ensures
        r matches Some(s) ==> spec_signature(opt_tables(tables), code@) == Some(*s),
        r is None ==> spec_signature(opt_tables(tables), code@) is None,
{
    match lookup_command(tables, code) {
        Some(e) => e.effective_signature(code),
        None => None,
    }
}

/// Sum of the character counts of a split rule.
pub open spec fn sum_counts(c: Seq<usize>) -> int
    decreases c.len(),
{
    if c.len() == 0 {
        0
    } else {
        sum_counts(c.drop_last()) + c.last()
    }
}

/// A signature's split rule names at least one part, and its counts sum
/// without overflow.
pub open spec fn signature_wf(s: Signature) -> bool {
    s.split_rule matches Some(r) ==> r.char_counts@.len() >= 1 && sum_counts(r.char_counts@)
        <= usize::MAX
}

/// Every signature of an entry (default and overrides) is well formed.
pub open spec fn entry_wf(e: CommandEntry) -> bool {
    &&& (e.signature matches Some(s) ==> signature_wf(s))
    &&& (e.signature_overrides matches Some(v) ==> forall|j: int|
        0 <= j < v@.len() ==> signature_wf(#[trigger] v@[j].1))
}

/// Every trie edge points at a node of the arena and is labelled by an
/// ASCII character; the arena has a root.
pub open spec fn trie_wf(tr: OpcodeTrie) -> bool {
    &&& tr.nodes@.len() >= 1
    &&& forall|n: int, j: int|
        0 <= n < tr.nodes@.len() && 0 <= j < tr.nodes@[n].children@.len() ==> {
            &&& (#[trigger] tr.nodes@[n].children@[j]).1 < tr.nodes@.len()
            &&& (tr.nodes@[n].children@[j].0 as u32) < 128
        }
}

/// Well-formed tables: well-formed signatures and trie.
pub open spec fn tables_wf(t: ParserTables) -> bool {
    &&& forall|i: int| 0 <= i < t.commands@.len() ==> entry_wf(#[trigger] t.commands@[i])
    &&& (t.opcode_trie matches Some(tr) ==> trie_wf(tr))
}

/// Well-formed optional tables.
pub open spec fn opt_tables_wf(t: Option<ParserTables>) -> bool {
    t matches Some(tt) ==> tables_wf(tt)
}

proof fn lemma_first_cmd_index_valid(cmds: Seq<CommandEntry>, code: Seq<char>)
    ensures
        first_cmd_index(cmds, code) matches Some(i) ==> 0 <= i < cmds.len(),
    decreases cmds.len(),
{
    if cmds.len() > 0 {
        lemma_first_cmd_index_valid(cmds.drop_last(), code);
    }
}

/// The entry that any code resolves to in well-formed tables is well formed.
pub proof fn lemma_lookup_wf(t: Option<ParserTables>, code: Seq<char>)
    requires
        opt_tables_wf(t),
    ensures
        spec_lookup(t, code) matches Some(e) ==> entry_wf(e),
{
    if let Some(tt) = t {
        lemma_first_cmd_index_valid(tt.commands@, code);
        if let Some(e) = spec_cmd(tt, code) {
            let i = first_cmd_index(tt.commands@, code)->0;
            assert(entry_wf(tt.commands@[i]));
        }
    }
}

/// The first override found among well-formed ones is well formed.
proof fn lemma_first_override_wf(ovs: Seq<(String, Signature)>, code: Seq<char>)
    requires
        forall|j: int| 0 <= j < ovs.len() ==> signature_wf(#[trigger] ovs[j].1),
    ensures
        first_override(ovs, code) matches Some(s) ==> signature_wf(s),
    decreases ovs.len(),
{
    if ovs.len() > 0 && ovs[0].0@ != code {
        assert forall|j: int| 0 <= j < ovs.drop_first().len() implies signature_wf(#[trigger] ovs.drop_first()[j].1) by {
            assert(ovs.drop_first()[j] == ovs[j + 1]);
        }
        lemma_first_override_wf(ovs.drop_first(), code);
    }
}

/// In well-formed tables, the signature in effect for any code is well
/// formed.
pub proof fn lemma_signature_wf(t: Option<ParserTables>, code: Seq<char>)
    requires
        opt_tables_wf(t),
    ensures
        spec_signature(t, code) matches Some(s) ==> signature_wf(s),
{
    lemma_lookup_wf(t, code);
    if let Some(tt) = t {
        if let Some(e) = spec_cmd(tt, code) {
            assert(spec_lookup(t, code) == Some(e));
            if let Some(v) = e.signature_overrides {
                lemma_first_override_wf(v@, code);
            }
        }
    }
}

/// Counts sum to no less than zero.
proof fn lemma_sum_counts_nonneg(c: Seq<usize>)
    ensures
        sum_counts(c) >= 0,
    decreases c.len(),
{
    if c.len() > 0 {
        lemma_sum_counts_nonneg(c.drop_last());
    }
}

/// A prefix of counts sums to no more than the counts.
proof fn lemma_sum_counts_take(c: Seq<usize>, k: int)
    requires
        0 <= k <= c.len(),
    ensures
        sum_counts(c.take(k)) <= sum_counts(c),
    decreases c.len() - k,
{
    if k < c.len() {
        lemma_sum_counts_take(c, k + 1);
        assert(c.take(k + 1).drop_last() =~= c.take(k));
    } else {
        assert(c.take(k) =~= c);
    }
}

/// Whether a signature is well formed (see [`signature_wf`]).
fn signature_well_formed(sg: &Signature) -> (r: bool)
    ensures
        r == signature_wf(*sg),
{
    match &sg.split_rule {
        None => true,
        Some(rule) => {
            let c = &rule.char_counts;
            if c.len() == 0 {
                return false;
            }
            let mut total: usize = 0;
            let mut i: usize = 0;
            assert(c@.take(0) =~= Seq::<usize>::empty());
            while i < c.len()
                invariant
                    i <= c@.len(),
                    total as int == sum_counts(c@.take(i as int)),
                    sg.split_rule matches Some(rr) && rr.char_counts@ == c@,
                decreases c@.len() - i,
            {
                assert(c@.take(i + 1).drop_last() =~= c@.take(i as int));
                if total > usize::MAX - c[i] {
                    proof {
                        lemma_sum_counts_take(c@, i + 1);
                        assert(c@.take(i + 1).last() == c@[i as int]);
                        assert(sum_counts(c@.take(i + 1)) == total + c@[i as int]);
                    }
                    return false;
                }
                total = total + c[i];
                i = i + 1;
            }
            assert(c@.take(c@.len() as int) =~= c@);
            true
        },
    }
}

/// Whether a command entry is well formed (see [`entry_wf`]).
fn entry_well_formed(e: &CommandEntry) -> (r: bool)
    ensures
        r == entry_wf(*e),
{
    if let Some(sg) = &e.signature {
        if !signature_well_formed(sg) {
            return false;
        }
    }
    if let Some(v) = &e.signature_overrides {
        let mut j: usize = 0;
        while j < v.len()
            invariant
                j <= v@.len(),
                forall|k: int| 0 <= k < j ==> signature_wf(#[trigger] v@[k].1),
                e.signature_overrides matches Some(vv) && vv@ == v@,
                e.signature matches Some(sg0) ==> signature_wf(sg0),
            decreases v@.len() - j,
        {
            if !signature_well_formed(&v[j].1) {
                assert(!signature_wf(v@[j as int].1));
                return false;
            }
            j = j + 1;
        }
    }
    true
}

/// Whether tables are well formed (see [`tables_wf`]): every signature
/// splits into at least one part and its counts fit in a `usize`, and
/// every trie edge leads to a node and is labelled by an ASCII character.
/// Well-formed tables are what parsing and formatting with tables need.
pub fn tables_well_formed(t: &ParserTables) -> (r: bool)
    ensures
        r == tables_wf(*t),
        r ==> crate::emit::split_rules_nonempty(Some(*t)),
{
    let mut i: usize = 0;
    while i < t.commands.len()
        invariant
            i <= t.commands@.len(),
            forall|k: int| 0 <= k < i ==> entry_wf(#[trigger] t.commands@[k]),
        decreases t.commands@.len() - i,
    {
        if !entry_well_formed(&t.commands[i]) {
            assert(!entry_wf(t.commands@[i as int]));
            return false;
        }
        i = i + 1;
    }
    if let Some(tr) = &t.opcode_trie {
        if tr.nodes.len() == 0 {
            return false;
        }
        let mut n: usize = 0;
        while n < tr.nodes.len()
            invariant
                n <= tr.nodes@.len(),
                tr.nodes@.len() >= 1,
                t.opcode_trie matches Some(tt) && tt.nodes@ == tr.nodes@,
                forall|k: int| 0 <= k < t.commands@.len() ==> entry_wf(#[trigger] t.commands@[k]),
                forall|a: int, j: int|
                    0 <= a < n && 0 <= j < tr.nodes@[a].children@.len() ==> {
                        &&& (#[trigger] tr.nodes@[a].children@[j]).1 < tr.nodes@.len()
                        &&& (tr.nodes@[a].children@[j].0 as u32) < 128
                    },
            decreases tr.nodes@.len() - n,
        {
            let ch = &tr.nodes[n].children;
            let mut j: usize = 0;
            while j < ch.len()
                invariant
                    n < tr.nodes@.len(),
                    tr.nodes@.len() >= 1,
                    t.opcode_trie matches Some(tt) && tt.nodes@ == tr.nodes@,
                    forall|k: int| 0 <= k < t.commands@.len() ==> entry_wf(#[trigger] t.commands@[k]),
                    ch@ == tr.nodes@[n as int].children@,
                    j <= ch@.len(),
                    forall|a: int, k: int|
                        0 <= a < n && 0 <= k < tr.nodes@[a].children@.len() ==> {
                            &&& (#[trigger] tr.nodes@[a].children@[k]).1 < tr.nodes@.len()
                            &&& (tr.nodes@[a].children@[k].0 as u32) < 128
                        },
                    forall|k: int| 0 <= k < j ==> {
                        &&& (#[trigger] ch@[k]).1 < tr.nodes@.len()
                        &&& (ch@[k].0 as u32) < 128
                    },
                decreases ch@.len() - j,
            {
                if ch[j].1 >= tr.nodes.len() || (ch[j].0 as u32) >= 128 {
                    assert(tr.nodes@[n as int].children@[j as int] == ch@[j as int]);
                    return false;
                }
                j = j + 1;
            }
            n = n + 1;
        }
    }
    proof {
        assert forall|code: Seq<char>|
            #![trigger spec_signature(Some(*t), code)]
            (spec_signature(Some(*t), code) matches Some(sg) ==> (sg.split_rule matches Some(r)
                ==> r.char_counts.len() >= 1)) by {
            lemma_signature_wf(Some(*t), code);
        }
    }
    true
}

} // verus!
