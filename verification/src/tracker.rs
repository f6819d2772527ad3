//! Field tracking within a label: whether a field is open, what the open
//! field has seen (`^FH`, `^FN`, serialization, barcodes), and the checks
//! made when a field separator closes it.

use crate::ast::Node;
use crate::context::{CommandCtx, ValidationContext};
use crate::diag::{
    diag1, diag2, diags_view, push_diagnostic, spec_severity, DiagView, Diagnostic, SeverityRegistry, Span,
    FIELD_DATA_WITHOUT_ORIGIN, FIELD_NOT_CLOSED, INVALID_HEX_ESCAPE, ORPHANED_FIELD_SEPARATOR,
    SERIALIZATION_WITHOUT_FIELD_NUMBER,
};
use crate::field::{spec_barcode_diags, validate_barcode_field_data};
use crate::hex_escape::{errors_view, scan_errors, validate_hex_escapes};
use crate::plan::StructuralFlags;
use crate::tables::FieldDataRules;
use crate::text::{char_string, chars_of, extend_chars, msg2, owned, str_eq, string_from_chars};
use vstd::prelude::*;
use vstd::string::*;
use vstd::utf8::*;

verus! {

broadcast use vstd::seq::group_seq_axioms;

/// The byte `_`, the default hex escape indicator.
pub const DEFAULT_INDICATOR: u8 = 95;

/// Tracks the field that is open in a label, from its field origin
/// (`^FO`/`^FT`) to its field separator (`^FS`).
pub struct FieldTracker<'a> {
    /// Whether a field is currently open.
    pub open: bool,
    /// Whether `^FH` was seen in the current field.
    pub has_fh: bool,
    /// The hex escape indicator byte (`_` unless `^FH` names another).
    pub fh_indicator: u8,
    /// Whether `^FN` was seen in the current field.
    pub has_fn: bool,
    /// Whether `^SN`/`^SF` was seen in the current field.
    pub has_serial: bool,
    /// Node index of the command that opened the field.
    pub start_idx: usize,
    /// Barcode commands seen in the field, in order: node index, code and
    /// the rules their data must satisfy.
    pub active_barcodes: Vec<(usize, String, &'a FieldDataRules)>,
}

/// The state of a field tracker as plain values.
pub struct TrackerView {
    pub open: bool,
    pub has_fh: bool,
    pub fh_indicator: u8,
    pub has_fn: bool,
    pub has_serial: bool,
    pub start_idx: int,
    pub barcodes: Seq<(int, Seq<char>, FieldDataRules)>,
}

impl<'a> View for FieldTracker<'a> {
    type V = TrackerView;

    open spec fn view(&self) -> TrackerView {
        TrackerView {
            open: self.open,
            has_fh: self.has_fh,
            fh_indicator: self.fh_indicator,
            has_fn: self.has_fn,
            has_serial: self.has_serial,
            start_idx: self.start_idx as int,
            barcodes: self.active_barcodes@.map_values(
                |b: (usize, String, &'a FieldDataRules)| (b.0 as int, b.1@, *b.2),
            ),
        }
    }
}

/// The state right after a field origin at node `i`: open, nothing seen.
pub open spec fn opened_at(i: int) -> TrackerView {
    TrackerView {
        open: true,
        has_fh: false,
        fh_indicator: DEFAULT_INDICATOR,
        has_fn: false,
        has_serial: false,
        start_idx: i,
        barcodes: seq![],
    }
}

/// The state after a field is closed: closed, nothing seen, the start kept.
pub open spec fn closed_from(v: TrackerView) -> TrackerView {
    TrackerView {
        open: false,
        has_fh: false,
        fh_indicator: DEFAULT_INDICATOR,
        has_fn: false,
        has_serial: false,
        start_idx: v.start_idx,
        barcodes: seq![],
    }
}

/// The first byte of the first argument's value, if there is one.
pub open spec fn first_arg_byte(ctx: CommandCtx) -> Option<u8> {
    if ctx.args@.len() > 0 && ctx.args@[0].value is Some && encode_utf8(ctx.args@[0].value->0@).len() > 0 {
        Some(encode_utf8(ctx.args@[0].value->0@)[0])
    } else {
        None
    }
}

/// Field data rules that constrain something.
pub open spec fn has_any_rule(r: FieldDataRules) -> bool {
    r.character_set is Some || r.exact_length is Some || r.allowed_lengths is Some || r.min_length is Some
        || r.max_length is Some || r.length_parity is Some
}

/// The state after a command's marks: `^FH` (and its indicator), `^FN`,
/// serialization, and the barcode the command declares rules for.
pub open spec fn marked(v: TrackerView, f: StructuralFlags, ctx: CommandCtx) -> TrackerView {
    TrackerView {
        open: v.open,
        has_fh: v.has_fh || f.hex_escape_modifier,
        fh_indicator: if f.hex_escape_modifier && first_arg_byte(ctx) is Some {
            first_arg_byte(ctx)->0
        } else {
            v.fh_indicator
        },
        has_fn: v.has_fn || f.field_number,
        has_serial: v.has_serial || f.serialization,
        start_idx: v.start_idx,
        barcodes: match ctx.cmd.field_data_rules {
            Some(r) => if has_any_rule(r) {
                v.barcodes.push((ctx.node_idx as int, ctx.code@, r))
            } else {
                v.barcodes
            },
            None => v.barcodes,
        },
    }
}

/// The state after the field-origin step of a command.
pub open spec fn after_open(v: TrackerView, f: StructuralFlags, ctx: CommandCtx) -> TrackerView {
    if f.opens_field {
        opened_at(ctx.node_idx as int)
    } else {
        v
    }
}

/// The state after the field-separator step of a command.
pub open spec fn after_close(v: TrackerView, f: StructuralFlags) -> TrackerView {
    if f.closes_field && v.open {
        closed_from(v)
    } else {
        v
    }
}

/// The state after a command: field origin, field separator, then marks.
pub open spec fn spec_process(v: TrackerView, f: StructuralFlags, ctx: CommandCtx) -> TrackerView {
    marked(after_close(after_open(v, f, ctx), f), f, ctx)
}

/// The text and span a node adds to its field's data: the content of field
/// data, or the value of the first argument of `^FD`/`^FV`.
pub open spec fn field_piece(nd: Node) -> Option<(Seq<char>, Span)> {
    match nd {
        Node::FieldData { content, span, .. } => Some((content@, span)),
        Node::Command { code, args, span } => if (code@ == "^FD"@ || code@ == "^FV"@) && args@.len() > 0
            && args@[0].value is Some {
            Some((args@[0].value->0@, span))
        } else {
            None
        },
        _ => None,
    }
}

/// The text of the field pieces of nodes `a..k`, in order.
pub open spec fn piece_text(nodes: Seq<Node>, a: int, k: int) -> Seq<char>
    decreases k - a,
{
    if k <= a {
        seq![]
    } else {
        piece_text(nodes, a, k - 1) + match field_piece(nodes[k - 1]) {
            Some(p) => p.0,
            None => seq![],
        }
    }
}

/// The span of the first field piece among nodes `a..k`.
pub open spec fn first_piece_span(nodes: Seq<Node>, a: int, k: int) -> Option<Span>
    decreases k - a,
{
    if k <= a {
        None
    } else {
        match first_piece_span(nodes, a, k - 1) {
            Some(s) => Some(s),
            None => match field_piece(nodes[k - 1]) {
                Some(p) => Some(p.1),
                None => None,
            },
        }
    }
}

/// The finding for one bad hex escape in a field piece with span `sp`.
pub open spec fn hex_diag(reg: SeverityRegistry, e: (int, Seq<char>), ind: u8, sp: Span) -> DiagView {
    (
        INVALID_HEX_ESCAPE@,
        spec_severity(reg, INVALID_HEX_ESCAPE@),
        e.1,
        Some(sp),
        Some(seq![("command"@, "^FH"@), ("indicator"@, seq![ind as char])]),
    )
}

/// The hex escape findings for one node.
pub open spec fn node_hex_diags(reg: SeverityRegistry, nd: Node, ind: u8) -> Seq<DiagView> {
    match field_piece(nd) {
        Some(p) => scan_errors(encode_utf8(p.0), ind, 0).map_values(|e: (int, Seq<char>)| hex_diag(reg, e, ind, p.1)),
        None => seq![],
    }
}

/// The hex escape findings for nodes `a..k`, in order.
pub open spec fn hex_diags(reg: SeverityRegistry, nodes: Seq<Node>, a: int, k: int, ind: u8) -> Seq<DiagView>
    decreases k - a,
{
    if k <= a {
        seq![]
    } else {
        hex_diags(reg, nodes, a, k - 1, ind) + node_hex_diags(reg, nodes[k - 1], ind)
    }
}

/// Where the data of barcode `j` ends: at the next barcode, or at the
/// field separator `close`.
pub open spec fn segment_end(bs: Seq<(int, Seq<char>, FieldDataRules)>, j: int, close: int) -> int {
    if j + 1 < bs.len() {
        bs[j + 1].0
    } else {
        close
    }
}

/// The findings for the data of barcode `j`: its pieces joined, checked
/// against its rules, reported at the first piece (none without data).
pub open spec fn segment_diags(
    nodes: Seq<Node>,
    bs: Seq<(int, Seq<char>, FieldDataRules)>,
    j: int,
    close: int,
) -> Seq<DiagView> {
    let a = bs[j].0;
    let b = segment_end(bs, j, close);
    match first_piece_span(nodes, a, b) {
        Some(sp) => spec_barcode_diags(bs[j].1, piece_text(nodes, a, b), bs[j].2, Some(sp)),
        None => seq![],
    }
}

/// The findings for the data of barcodes `0..j`, in order.
pub open spec fn barcodes_diags(nodes: Seq<Node>, bs: Seq<(int, Seq<char>, FieldDataRules)>, j: int, close: int) -> Seq<
    DiagView,
>
    decreases j,
{
    if j <= 0 {
        seq![]
    } else {
        barcodes_diags(nodes, bs, j - 1, close) + segment_diags(nodes, bs, j - 1, close)
    }
}

/// A finding whose only context is the command.
pub open spec fn command_diag(reg: SeverityRegistry, id: Seq<char>, message: Seq<char>, ctx: CommandCtx) -> DiagView {
    (id, spec_severity(reg, id), message, ctx.span, Some(seq![("command"@, ctx.code@)]))
}

/// The findings when a field separator closes the field of state `v`: an
/// orphaned separator when no field is open; otherwise bad hex escapes
/// (with `^FH`), serialization without a field number, and barcode data
/// (without `^FH`).
pub open spec fn close_diags(reg: SeverityRegistry, v: TrackerView, nodes: Seq<Node>, ctx: CommandCtx) -> Seq<DiagView> {
    if !v.open {
        seq![
            command_diag(
                reg,
                ORPHANED_FIELD_SEPARATOR@,
                ctx.code@ + " without a preceding field origin (orphaned field separator)"@,
                ctx,
            ),
        ]
    } else {
        (if v.has_fh {
            hex_diags(reg, nodes, v.start_idx, ctx.node_idx as int, v.fh_indicator)
        } else {
            seq![]
        }) + (if v.has_serial && !v.has_fn {
            seq![
                (
                    SERIALIZATION_WITHOUT_FIELD_NUMBER@,
                    spec_severity(reg, SERIALIZATION_WITHOUT_FIELD_NUMBER@),
                    "Serialization (^SN/^SF) in field without ^FN field number"@,
                    ctx.span,
                    Some(seq![("command"@, "^SN/^SF"@)]),
                ),
            ]
        } else {
            seq![]
        }) + (if !v.has_fh && v.barcodes.len() > 0 {
            barcodes_diags(nodes, v.barcodes, v.barcodes.len() as int, ctx.node_idx as int)
        } else {
            seq![]
        })
    }
}

/// The findings of one command: a field opened over an open one, the
/// checks of a field separator, and field data without a field origin.
pub open spec fn spec_process_diags(
    reg: SeverityRegistry,
    v: TrackerView,
    f: StructuralFlags,
    ctx: CommandCtx,
    nodes: Seq<Node>,
) -> Seq<DiagView> {
    let v1 = after_open(v, f, ctx);
    let v2 = after_close(v1, f);
    (if f.opens_field && v.open {
        seq![
            command_diag(
                reg,
                FIELD_NOT_CLOSED@,
                ctx.code@ + " opens a new field before previous field was closed with ^FS"@,
                ctx,
            ),
        ]
    } else {
        seq![]
    }) + (if f.closes_field {
        close_diags(reg, v1, nodes, ctx)
    } else {
        seq![]
    }) + (if (f.field_data || f.requires_field) && !v2.open {
        seq![
            command_diag(
                reg,
                FIELD_DATA_WITHOUT_ORIGIN@,
                ctx.code@ + " without preceding field origin (no field origin)"@,
                ctx,
            ),
        ]
    } else {
        seq![]
    })
}

/// The node indices the open field has recorded are ordered and do not
/// pass `i`, and `i` does not pass the end of the label's `n` nodes: a field
/// separator at node `i` can be checked.
pub open spec fn can_close_at(v: TrackerView, i: int, n: int) -> bool {
    v.open ==> {
        &&& i <= n
        &&& v.start_idx <= i
        &&& forall|j: int, k: int|
            0 <= j < k < v.barcodes.len() ==> (#[trigger] v.barcodes[j]).0 <= (#[trigger] v.barcodes[k]).0
        &&& forall|j: int| 0 <= j < v.barcodes.len() ==> (#[trigger] v.barcodes[j]).0 <= i
    }
}

/// A command that closes a field leaves no field open, whatever was open
/// before it.
pub proof fn law_separator_closes_field(v: TrackerView, f: StructuralFlags, ctx: CommandCtx)
    requires
        f.closes_field,
    ensures
        !spec_process(v, f, ctx).open,
{
}

/// A field origin that is not also a separator leaves a field open that
/// starts at the origin's node.
pub proof fn law_origin_opens_field(v: TrackerView, f: StructuralFlags, ctx: CommandCtx)
    requires
        f.opens_field,
        !f.closes_field,
    ensures
        spec_process(v, f, ctx).open,
        spec_process(v, f, ctx).start_idx == ctx.node_idx,
{
}

/// A field separator while no field is open is reported first as an
/// orphaned separator.
pub proof fn law_orphaned_separator_reported(
    reg: SeverityRegistry,
    v: TrackerView,
    f: StructuralFlags,
    ctx: CommandCtx,
    nodes: Seq<Node>,
)
    requires
        f.closes_field,
        !f.opens_field,
        !v.open,
    ensures
        spec_process_diags(reg, v, f, ctx, nodes).len() >= 1,
        spec_process_diags(reg, v, f, ctx, nodes)[0].0 == ORPHANED_FIELD_SEPARATOR@,
{
}

/// A field origin while a field is open is reported first, as a field not
/// closed.
pub proof fn law_reopened_field_reported(
    reg: SeverityRegistry,
    v: TrackerView,
    f: StructuralFlags,
    ctx: CommandCtx,
    nodes: Seq<Node>,
)
    requires
        f.opens_field,
        v.open,
    ensures
        spec_process_diags(reg, v, f, ctx, nodes).len() >= 1,
        spec_process_diags(reg, v, f, ctx, nodes)[0].0 == FIELD_NOT_CLOSED@,
{
}

/// The field piece of a node, as the node's own text.
fn field_piece_of<'b>(nd: &'b Node) -> (r: Option<(&'b str, Span)>)
    ensures
        match r {
            Some(p) => field_piece(*nd) == Some((p.0@, p.1)),
            None => field_piece(*nd) is None,
        },
{
    match nd {
        Node::FieldData { content, span, .. } => Some((content.as_str(), *span)),
        Node::Command { code, args, span } => {
            if (str_eq(code.as_str(), "^FD") || str_eq(code.as_str(), "^FV")) && args.len() > 0 {
                match &args[0].value {
                    Some(v) => Some((v.as_str(), *span)),
                    None => None,
                }
            } else {
                None
            }
        },
        _ => None,
    }
}

impl<'a> FieldTracker<'a> {
    /// A tracker with no field open.
    pub fn new() -> (t: FieldTracker<'a>)
        ensures
            !t@.open,
            !t@.has_fh,
            t@.fh_indicator == DEFAULT_INDICATOR,
            !t@.has_fn,
            !t@.has_serial,
            t@.start_idx == 0,
            t@.barcodes.len() == 0,
    {
        FieldTracker {
            open: false,
            has_fh: false,
            fh_indicator: DEFAULT_INDICATOR,
            has_fn: false,
            has_serial: false,
            start_idx: 0,
            active_barcodes: Vec::new(),
        }
    }

    /// Forgets what the field has seen.
    fn reset(&mut self)
        ensures
            final(self)@ == (TrackerView {
                open: old(self)@.open,
                has_fh: false,
                fh_indicator: DEFAULT_INDICATOR,
                has_fn: false,
                has_serial: false,
                start_idx: old(self)@.start_idx,
                barcodes: seq![],
            }),
    {
        self.has_fh = false;
        self.fh_indicator = DEFAULT_INDICATOR;
        self.has_fn = false;
        self.has_serial = false;
        self.active_barcodes.clear();
        assert(self@.barcodes =~= seq![]);
    }

    /// Processes a command's structural roles: a field origin opens a field
    /// (reporting one left open), a field separator runs the field's checks
    /// and closes it, field data outside a field is reported, and `^FH`,
    /// `^FN`, serialization and barcode rules are recorded for the field.
    pub fn process_command(
        &mut self,
        cmd_ctx: &CommandCtx<'a>,
        vctx: &ValidationContext,
        structural_flags: StructuralFlags,
        issues: &mut Vec<Diagnostic>,
    )
        requires
            cmd_ctx.node_idx <= vctx.label_nodes@.len(),
            can_close_at(old(self)@, cmd_ctx.node_idx as int, vctx.label_nodes@.len() as int),
        ensures
            final(self)@ == spec_process(old(self)@, structural_flags, *cmd_ctx),
            diags_view(final(issues)@) == diags_view(old(issues)@) + spec_process_diags(
                *vctx.severities,
                old(self)@,
                structural_flags,
                *cmd_ctx,
                vctx.label_nodes@,
            ),
            can_close_at(final(self)@, cmd_ctx.node_idx as int, vctx.label_nodes@.len() as int),
    {
        let ghost v0 = self@;
        let ghost d0 = diags_view(issues@);
        let reg = vctx.severities;
        if structural_flags.opens_field {
            if self.open {
                let d = diag1(
                    FIELD_NOT_CLOSED,
                    reg.severity_of(FIELD_NOT_CLOSED),
                    msg2(cmd_ctx.code, " opens a new field before previous field was closed with ^FS"),
                    cmd_ctx.span,
                    "command",
                    owned(cmd_ctx.code),
                );
                push_diagnostic(issues, d);
            }
            self.open = true;
            self.reset();
            self.start_idx = cmd_ctx.node_idx;
            assert(self@ == opened_at(cmd_ctx.node_idx as int));
        }
        let ghost v1 = self@;
        let ghost d1 = diags_view(issues@);
        assert(v1 == after_open(v0, structural_flags, *cmd_ctx));
        if structural_flags.closes_field {
            self.validate_field_close(cmd_ctx, vctx, issues);
        }
        let ghost v2 = self@;
        let ghost d2 = diags_view(issues@);
        if (structural_flags.field_data || structural_flags.requires_field) && !self.open {
            let d = diag1(
                FIELD_DATA_WITHOUT_ORIGIN,
                reg.severity_of(FIELD_DATA_WITHOUT_ORIGIN),
                msg2(cmd_ctx.code, " without preceding field origin (no field origin)"),
                cmd_ctx.span,
                "command",
                owned(cmd_ctx.code),
            );
            push_diagnostic(issues, d);
        }
        if structural_flags.hex_escape_modifier {
            self.has_fh = true;
            if cmd_ctx.args.len() > 0 {
                match &cmd_ctx.args[0].value {
                    Some(val) => {
                        let bytes = val.as_str().as_bytes();
                        if bytes.len() > 0 {
                            self.fh_indicator = bytes[0];
                        }
                    },
                    None => {},
                }
            }
        }
        if structural_flags.field_number {
            self.has_fn = true;
        }
        if structural_flags.serialization {
            self.has_serial = true;
        }
        let cmd = cmd_ctx.cmd;
        match &cmd.field_data_rules {
            Some(rules) => {
                if rules.character_set.is_some() || rules.exact_length.is_some() || rules.allowed_lengths.is_some()
                    || rules.min_length.is_some() || rules.max_length.is_some() || rules.length_parity.is_some() {
                    let ghost before = self.active_barcodes@;
                    self.active_barcodes.push((cmd_ctx.node_idx, owned(cmd_ctx.code), rules));
                    assert(self@.barcodes =~= v2.barcodes.push((cmd_ctx.node_idx as int, cmd_ctx.code@, *rules)));
                }
            },
            None => {},
        }
        proof {
            assert(self@.barcodes == marked(v2, structural_flags, *cmd_ctx).barcodes);
            assert(self@ == marked(v2, structural_flags, *cmd_ctx));
            assert(diags_view(issues@) =~= d0 + spec_process_diags(
                *vctx.severities,
                v0,
                structural_flags,
                *cmd_ctx,
                vctx.label_nodes@,
            ));
        }
    }

    /// The checks of a field separator: an orphaned separator when no field
    /// is open; otherwise the field's hex escapes (with `^FH`), serialization
    /// without a field number, and each barcode's data (without `^FH`), after
    /// which the field is closed.
    fn validate_field_close(&mut self, cmd_ctx: &CommandCtx<'a>, vctx: &ValidationContext, issues: &mut Vec<Diagnostic>)
        requires
            cmd_ctx.node_idx <= vctx.label_nodes@.len(),
            can_close_at(old(self)@, cmd_ctx.node_idx as int, vctx.label_nodes@.len() as int),
        ensures
            final(self)@ == (if old(self)@.open {
                closed_from(old(self)@)
            } else {
                old(self)@
            }),
            diags_view(final(issues)@) == diags_view(old(issues)@) + close_diags(
                *vctx.severities,
                old(self)@,
                vctx.label_nodes@,
                *cmd_ctx,
            ),
    {
        let reg = vctx.severities;
        let ghost v0 = self@;
        let ghost d0 = diags_view(issues@);
        if !self.open {
            let d = diag1(
                ORPHANED_FIELD_SEPARATOR,
                reg.severity_of(ORPHANED_FIELD_SEPARATOR),
                msg2(cmd_ctx.code, " without a preceding field origin (orphaned field separator)"),
                cmd_ctx.span,
                "command",
                owned(cmd_ctx.code),
            );
            push_diagnostic(issues, d);
            return;
        }
        if self.has_fh {
            self.check_hex_escapes(cmd_ctx, vctx, issues);
        }
        let ghost d1 = diags_view(issues@);
        if self.has_serial && !self.has_fn {
            let d = diag1(
                SERIALIZATION_WITHOUT_FIELD_NUMBER,
                reg.severity_of(SERIALIZATION_WITHOUT_FIELD_NUMBER),
                owned("Serialization (^SN/^SF) in field without ^FN field number"),
                cmd_ctx.span,
                "command",
                owned("^SN/^SF"),
            );
            push_diagnostic(issues, d);
        }
        let ghost d2 = diags_view(issues@);
        if !self.has_fh && self.active_barcodes.len() > 0 {
            self.check_barcodes(cmd_ctx, vctx, issues);
        }
        // Text and barcode overflow past the label edges is estimated in
        // floating point and is not checked here.
        self.open = false;
        self.reset();
        proof {
            assert(diags_view(issues@) =~= d0 + close_diags(*vctx.severities, v0, vctx.label_nodes@, *cmd_ctx));
        }
    }

    /// Reports every bad hex escape in the field pieces from the field
    /// origin up to the separator.
    fn check_hex_escapes(&self, cmd_ctx: &CommandCtx<'a>, vctx: &ValidationContext, issues: &mut Vec<Diagnostic>)
        requires
            self@.open,
            self@.start_idx <= cmd_ctx.node_idx <= vctx.label_nodes@.len(),
        ensures
            diags_view(final(issues)@) == diags_view(old(issues)@) + hex_diags(
                *vctx.severities,
                vctx.label_nodes@,
                self@.start_idx,
                cmd_ctx.node_idx as int,
                self@.fh_indicator,
            ),
    {
        let reg = vctx.severities;
        let ind = self.fh_indicator;
        let nodes = vctx.label_nodes;
        let ghost d0 = diags_view(issues@);
        let mut k = self.start_idx;
        while k < cmd_ctx.node_idx
            invariant
                self.start_idx <= k <= cmd_ctx.node_idx <= nodes@.len(),
                nodes == vctx.label_nodes,
                reg == vctx.severities,
                ind == self.fh_indicator,
                diags_view(issues@) == d0 + hex_diags(*reg, nodes@, self.start_idx as int, k as int, ind),
            decreases cmd_ctx.node_idx - k,
        {
            let ghost dk = diags_view(issues@);
            match field_piece_of(&nodes[k]) {
                Some((content, sp)) => {
                    let errs = validate_hex_escapes(content, ind);
                    let ghost ev = errors_view(errs@);
                    let mut j: usize = 0;
                    while j < errs.len()
                        invariant
                            j <= errs@.len(),
                            ev == errors_view(errs@),
                            diags_view(issues@) == dk + ev.take(j as int).map_values(
                                |e: (int, Seq<char>)| hex_diag(*reg, e, ind, sp),
                            ),
                        decreases errs.len() - j,
                    {
                        let d = diag2(
                            INVALID_HEX_ESCAPE,
                            reg.severity_of(INVALID_HEX_ESCAPE),
                            owned(errs[j].message.as_str()),
                            Some(sp),
                            "command",
                            owned("^FH"),
                            "indicator",
                            char_string(ind as char),
                        );
                        let ghost prev = diags_view(issues@);
                        push_diagnostic(issues, d);
                        proof {
                            assert(ev.take(j + 1) =~= ev.take(j as int).push(ev[j as int]));
                            assert(ev.take(j + 1).map_values(|e: (int, Seq<char>)| hex_diag(*reg, e, ind, sp))
                                =~= ev.take(j as int).map_values(|e: (int, Seq<char>)| hex_diag(*reg, e, ind, sp)).push(
                                hex_diag(*reg, ev[j as int], ind, sp),
                            ));
                        }
                        j = j + 1;
                    }
                    proof {
                        assert(ev.take(errs@.len() as int) =~= ev);
                        assert(ev == scan_errors(encode_utf8(content@), ind, 0));
                    }
                },
                None => {},
            }
            k = k + 1;
            proof {
                assert(diags_view(issues@) =~= d0 + hex_diags(*reg, nodes@, self.start_idx as int, k as int, ind));
            }
        }
    }

    /// Checks each barcode's data: the field pieces from the barcode command
    /// up to the next barcode command (or the separator), joined.
    fn check_barcodes(&self, cmd_ctx: &CommandCtx<'a>, vctx: &ValidationContext, issues: &mut Vec<Diagnostic>)
        requires
            self@.open,
            cmd_ctx.node_idx <= vctx.label_nodes@.len(),
            can_close_at(self@, cmd_ctx.node_idx as int, vctx.label_nodes@.len() as int),
        ensures
            diags_view(final(issues)@) == diags_view(old(issues)@) + barcodes_diags(
                vctx.label_nodes@,
                self@.barcodes,
                self@.barcodes.len() as int,
                cmd_ctx.node_idx as int,
            ),
    {
        let nodes = vctx.label_nodes;
        let bs = &self.active_barcodes;
        let ghost bv = self@.barcodes;
        let ghost d0 = diags_view(issues@);
        let mut j: usize = 0;
        while j < bs.len()
            invariant
                j <= bs@.len(),
                bv == self@.barcodes,
                bs == &self.active_barcodes,
                nodes == vctx.label_nodes,
                cmd_ctx.node_idx <= nodes@.len(),
                can_close_at(self@, cmd_ctx.node_idx as int, nodes@.len() as int),
                self@.open,
                diags_view(issues@) == d0 + barcodes_diags(nodes@, bv, j as int, cmd_ctx.node_idx as int),
            decreases bs@.len() - j,
        {
            let seg_start = bs[j].0;
            let seg_end = if j + 1 < bs.len() {
                bs[j + 1].0
            } else {
                cmd_ctx.node_idx
            };
            proof {
                assert(bv[j as int].0 == seg_start);
                if j + 1 < bs.len() {
                    assert(bv[j + 1].0 == seg_end);
                    assert(bv[j as int].0 <= bv[j + 1].0);
                    assert(bv[j + 1].0 <= cmd_ctx.node_idx);
                } else {
                    assert(bv[j as int].0 <= cmd_ctx.node_idx);
                }
                assert(seg_end == segment_end(bv, j as int, cmd_ctx.node_idx as int));
            }
            let mut text: Vec<char> = Vec::new();
            let mut first: Option<Span> = None;
            let mut k = seg_start;
            while k < seg_end
                invariant
                    seg_start <= k <= seg_end <= nodes@.len(),
                    text@ == piece_text(nodes@, seg_start as int, k as int),
                    first == first_piece_span(nodes@, seg_start as int, k as int),
                decreases seg_end - k,
            {
                match field_piece_of(&nodes[k]) {
                    Some((t, sp)) => {
                        let cs = chars_of(t);
                        extend_chars(&mut text, &cs);
                        if first.is_none() {
                            first = Some(sp);
                        }
                    },
                    None => {},
                }
                k = k + 1;
            }
            let ghost dj = diags_view(issues@);
            match first {
                Some(sp) => {
                    let data = string_from_chars(&text);
                    validate_barcode_field_data(bs[j].1.as_str(), data.as_str(), bs[j].2, Some(sp), issues);
                },
                None => {},
            }
            proof {
                assert(bv[j as int] == (bs@[j as int].0 as int, bs@[j as int].1@, *bs@[j as int].2));
                assert(diags_view(issues@) == dj + segment_diags(nodes@, bv, j as int, cmd_ctx.node_idx as int));
            }
            j = j + 1;
            proof {
                assert(diags_view(issues@) =~= d0 + barcodes_diags(nodes@, bv, j as int, cmd_ctx.node_idx as int));
            }
        }
    }
}

} // verus!
