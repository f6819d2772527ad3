//! Diagnostics: source spans, severities, diagnostic records and the
//! identifiers of the problems that the parser and validator report.

use vstd::prelude::*;

verus! {

/// A half-open byte range `[start, end)` in the source input.
#[derive(Debug, Clone, Copy, PartialEq, Eq, Structural)]
pub struct Span {
    /// Byte offset of the first byte.
    pub start: usize,
    /// Byte offset one past the last byte.
    pub end: usize,
}

impl Span {
    /// The span `[start, end)`.
    pub fn new(start: usize, end: usize) -> (s: Span)
        ensures
            s.start == start && s.end == end,
    {
        Span { start, end }
    }

    /// The empty span at `at`.
    pub fn empty(at: usize) -> (s: Span)
        ensures
            s.start == at && s.end == at,
    {
        Span { start: at, end: at }
    }
}

/// How serious a diagnostic is.
#[derive(Debug, Clone, Copy, PartialEq, Eq, Structural)]
pub enum Severity {
    /// A problem that makes the input invalid.
    Error,
    /// A likely problem.
    Warn,
    /// Informational.
    Info,
}

/// One problem found in the input.
#[derive(Debug, Clone, PartialEq)]
pub struct Diagnostic {
    /// Stable diagnostic identifier (e.g. `ZPL3001`).
    pub id: String,
    /// Severity of the problem.
    pub severity: Severity,
    /// Human-readable message.
    pub message: String,
    /// Source span, when the problem has a location.
    pub span: Option<Span>,
    /// Structured key/value context, in insertion order.
    pub context: Option<Vec<(String, String)>>,
}

impl Diagnostic {
    /// A diagnostic without context.
    pub fn new(id: &str, severity: Severity, message: String, span: Option<Span>) -> (d: Diagnostic)
        ensures
            d.id@ == id@,
            d.severity == severity,
            d.message == message,
            d.span == span,
            d.context.is_none(),
    {
        Diagnostic { id: crate::text::owned(id), severity, message, span, context: None }
    }

    /// This diagnostic with `context` attached (replacing any earlier context).
    pub fn with_context(self, context: Vec<(String, String)>) -> (d: Diagnostic)
        ensures
            d.id == self.id,
            d.severity == self.severity,
            d.message == self.message,
            d.span == self.span,
            d.context == Some(context),
    {
        Diagnostic { context: Some(context), ..self }
    }
}

/// The plain view of a context: its (key, value) pairs in order.
pub open spec fn ctx_view(c: Seq<(String, String)>) -> Seq<(Seq<char>, Seq<char>)> {
    c.map_values(|p: (String, String)| (p.0@, p.1@))
}

/// A diagnostic as plain values: id, severity, message, span, context.
pub type DiagView = (Seq<char>, Severity, Seq<char>, Option<Span>, Option<Seq<(Seq<char>, Seq<char>)>>);

/// The plain view of a diagnostic: id, severity, message, span, context.
pub open spec fn diag_view(d: Diagnostic) -> (Seq<char>, Severity, Seq<char>, Option<Span>, Option<Seq<(Seq<char>, Seq<char>)>>) {
    (d.id@, d.severity, d.message@, d.span, match d.context {
        Some(c) => Some(ctx_view(c@)),
        None => None,
    })
}

/// The plain views of a list of diagnostics.
pub open spec fn diags_view(s: Seq<Diagnostic>) -> Seq<(Seq<char>, Severity, Seq<char>, Option<Span>, Option<Seq<(Seq<char>, Seq<char>)>>)> {
    s.map_values(|d: Diagnostic| diag_view(d))
}

/// Appends a diagnostic; the views grow by its view.
pub fn push_diagnostic(issues: &mut Vec<Diagnostic>, d: Diagnostic)
    ensures
        diags_view(final(issues)@) == diags_view(old(issues)@).push(diag_view(d)),
{
    let ghost dv = diag_view(d);
    issues.push(d);
    assert(diags_view(issues@) =~= diags_view(old(issues)@).push(dv));
}

/// A context of one entry.
pub fn ctx1(k1: &str, v1: String) -> (r: Vec<(String, String)>)
    ensures
        ctx_view(r@) == seq![(k1@, v1@)],
{
    let mut c: Vec<(String, String)> = Vec::new();
    c.push((crate::text::owned(k1), v1));
    assert(ctx_view(c@) =~= seq![(k1@, v1@)]);
    c
}

/// Appends an entry to a context.
pub fn ctx_push(c: &mut Vec<(String, String)>, k: &str, v: String)
    ensures
        ctx_view(final(c)@) == ctx_view(old(c)@).push((k@, v@)),
{
    let ghost kv = (k@, v@);
    c.push((crate::text::owned(k), v));
    assert(ctx_view(c@) =~= ctx_view(old(c)@).push(kv));
}

/// A diagnostic with a context of three entries, in order.
pub fn diag3(
    id: &str,
    severity: Severity,
    message: String,
    span: Option<Span>,
    k1: &str,
    v1: String,
    k2: &str,
    v2: String,
    k3: &str,
    v3: String,
) -> (d: Diagnostic)
    ensures
        diag_view(d) == (id@, severity, message@, span, Some(seq![(k1@, v1@), (k2@, v2@), (k3@, v3@)])),
{
    let ghost e = seq![(k1@, v1@), (k2@, v2@), (k3@, v3@)];
    let mut c: Vec<(String, String)> = Vec::new();
    ctx_push(&mut c, k1, v1);
    ctx_push(&mut c, k2, v2);
    ctx_push(&mut c, k3, v3);
    assert(ctx_view(c@) =~= e);
    Diagnostic::new(id, severity, message, span).with_context(c)
}

/// A diagnostic with a context of four entries, in order.
pub fn diag4(
    id: &str,
    severity: Severity,
    message: String,
    span: Option<Span>,
    k1: &str,
    v1: String,
    k2: &str,
    v2: String,
    k3: &str,
    v3: String,
    k4: &str,
    v4: String,
) -> (d: Diagnostic)
    ensures
        diag_view(d) == (id@, severity, message@, span, Some(
            seq![(k1@, v1@), (k2@, v2@), (k3@, v3@), (k4@, v4@)],
        )),
{
    let ghost e = seq![(k1@, v1@), (k2@, v2@), (k3@, v3@), (k4@, v4@)];
    let mut c: Vec<(String, String)> = Vec::new();
    ctx_push(&mut c, k1, v1);
    ctx_push(&mut c, k2, v2);
    ctx_push(&mut c, k3, v3);
    ctx_push(&mut c, k4, v4);
    assert(ctx_view(c@) =~= e);
    Diagnostic::new(id, severity, message, span).with_context(c)
}

/// A diagnostic with a context of one entry.
pub fn diag1(id: &str, severity: Severity, message: String, span: Option<Span>, k1: &str, v1: String) -> (d: Diagnostic)
    ensures
        diag_view(d) == (id@, severity, message@, span, Some(seq![(k1@, v1@)])),
{
    Diagnostic::new(id, severity, message, span).with_context(ctx1(k1, v1))
}

/// A diagnostic with a context of two entries, in order.
pub fn diag2(
    id: &str,
    severity: Severity,
    message: String,
    span: Option<Span>,
    k1: &str,
    v1: String,
    k2: &str,
    v2: String,
) -> (d: Diagnostic)
    ensures
        diag_view(d) == (id@, severity, message@, span, Some(seq![(k1@, v1@), (k2@, v2@)])),
{
    let ghost e = seq![(k1@, v1@), (k2@, v2@)];
    let mut c: Vec<(String, String)> = Vec::new();
    ctx_push(&mut c, k1, v1);
    ctx_push(&mut c, k2, v2);
    assert(ctx_view(c@) =~= e);
    Diagnostic::new(id, severity, message, span).with_context(c)
}

/// The registered default severity of each diagnostic identifier, as the
/// diagnostics registry lists them.
#[derive(Debug, Clone)]
pub struct SeverityRegistry {
    /// `(identifier, severity)` pairs; the first entry for an identifier counts.
    pub entries: Vec<(String, Severity)>,
}

/// The severity registered for `id` in `entries`, if any (the first entry wins).
pub open spec fn registered_severity(entries: Seq<(String, Severity)>, id: Seq<char>) -> Option<Severity>
    decreases entries.len(),
{
    if entries.len() == 0 {
        None
    } else if entries[0].0@ == id {
        Some(entries[0].1)
    } else {
        registered_severity(entries.drop_first(), id)
    }
}

/// The severity a diagnostic with identifier `id` gets: the registered one,
/// else a warning.
pub open spec fn spec_severity(reg: SeverityRegistry, id: Seq<char>) -> Severity {
    match registered_severity(reg.entries@, id) {
        Some(s) => s,
        None => Severity::Warn,
    }
}

impl SeverityRegistry {
    /// The severity registered for `id`, if any.
    pub fn severity_for_code(&self, id: &str) -> (r: Option<Severity>)
        ensures
            r == registered_severity(self.entries@, id@),
    {
        let mut i: usize = 0;
        assert(self.entries@.skip(0) =~= self.entries@);
        while i < self.entries.len()
            invariant
                i <= self.entries@.len(),
                registered_severity(self.entries@, id@) == registered_severity(self.entries@.skip(i as int), id@),
            decreases self.entries@.len() - i,
        {
            let ghost rest = self.entries@.skip(i as int);
            if crate::text::str_eq(self.entries[i].0.as_str(), id) {
                return Some(self.entries[i].1);
            }
            assert(rest.drop_first() =~= self.entries@.skip(i + 1));
            i = i + 1;
        }
        None
    }

    /// The severity a diagnostic with identifier `id` gets: the registered
    /// one, else a warning.
    pub fn severity_of(&self, id: &str) -> (r: Severity)
        ensures
            r == spec_severity(*self, id@),
    {
        match self.severity_for_code(id) {
            Some(s) => s,
            None => Severity::Warn,
        }
    }
}

/// Whether any diagnostic in the list is an error.
pub open spec fn has_error(ds: Seq<Diagnostic>) -> bool {
    exists|k: int| 0 <= k < ds.len() && (#[trigger] ds[k]).severity == Severity::Error
}

/// Whether any diagnostic in the list is an error.
pub fn any_error(ds: &Vec<Diagnostic>) -> (r: bool)
    ensures
        r == has_error(ds@),
{
    let mut i: usize = 0;
    while i < ds.len()
        invariant
            i <= ds.len(),
            forall|k: int| 0 <= k < i ==> (#[trigger] ds@[k]).severity != Severity::Error,
        decreases ds.len() - i,
    {
        if ds[i].severity == Severity::Error {
            return true;
        }
        i = i + 1;
    }
    false
}

/// Parser: a leader without a usable command code, or malformed command text.
pub const PARSER_INVALID_COMMAND: &'static str = "ZPL.PARSER.1001";

/// Parser: a command code that the spec tables do not know.
pub const PARSER_UNKNOWN_COMMAND: &'static str = "ZPL.PARSER.1002";

/// Parser: a label opened by `^XA` without `^XZ`.
pub const PARSER_MISSING_TERMINATOR: &'static str = "ZPL.PARSER.1003";

/// Parser: field data or raw data not closed by `^FS`.
pub const PARSER_MISSING_FIELD_SEPARATOR: &'static str = "ZPL.PARSER.1004";

/// Parser: text outside of any command.
pub const PARSER_STRAY_CONTENT: &'static str = "ZPL.PARSER.1005";

/// Parser: the input holds no label.
pub const PARSER_NO_LABELS: &'static str = "ZPL.PARSER.1006";

/// Parser: field data interrupted by a command other than `^FS`.
pub const PARSER_FIELD_DATA_INTERRUPTED: &'static str = "ZPL.PARSER.1007";

/// Parser: a prefix or delimiter change to a non-ASCII character.
pub const PARSER_NON_ASCII_ARG: &'static str = "ZPL.PARSER.1008";

/// Validator: a required argument is missing or unset.
pub const REQUIRED_MISSING: &'static str = "ZPL1001";

/// Validator: a required argument is present but empty.
pub const REQUIRED_EMPTY: &'static str = "ZPL1002";

/// Validator: an `order` constraint with `before:` is violated.
pub const ORDER_BEFORE: &'static str = "ZPL2101";

/// Validator: an `order` constraint with `after:` is violated.
pub const ORDER_AFTER: &'static str = "ZPL2102";

/// Validator: a required companion command is missing.
pub const REQUIRED_COMMAND: &'static str = "ZPL2103";

/// Validator: an incompatible command is present.
pub const INCOMPATIBLE_COMMAND: &'static str = "ZPL2104";

/// Validator: field data is empty.
pub const EMPTY_FIELD_DATA: &'static str = "ZPL2105";

/// Validator: a contextual note from the command's spec.
pub const NOTE: &'static str = "ZPL3001";

/// Validator: a field separator without an open field.
pub const ORPHANED_FIELD_SEPARATOR: &'static str = "ZPL2204";

/// Validator: a field opened while another is still open, or never closed.
pub const FIELD_NOT_CLOSED: &'static str = "ZPL2203";

/// Validator: field data without a preceding field origin.
pub const FIELD_DATA_WITHOUT_ORIGIN: &'static str = "ZPL2201";

/// Validator: an empty label.
pub const EMPTY_LABEL: &'static str = "ZPL2202";

/// Validator: an invalid `^FH` hex escape in field data.
pub const INVALID_HEX_ESCAPE: &'static str = "ZPL2304";

/// Validator: serialization without a field number.
pub const SERIALIZATION_WITHOUT_FIELD_NUMBER: &'static str = "ZPL2306";

/// Validator: a value outside an argument's enumeration.
pub const INVALID_ENUM: &'static str = "ZPL1101";

/// Validator: an integer argument that is not an integer.
pub const EXPECTED_INTEGER: &'static str = "ZPL1102";

/// Validator: a numeric argument that is not a number.
pub const EXPECTED_NUMERIC: &'static str = "ZPL1103";

/// Validator: a character argument that is not one character.
pub const EXPECTED_CHAR: &'static str = "ZPL1104";

/// Validator: an argument shorter than its minimum length.
pub const STRING_TOO_SHORT: &'static str = "ZPL1105";

/// Validator: an argument longer than its maximum length.
pub const STRING_TOO_LONG: &'static str = "ZPL1106";

/// Validator: a command outside the scope where it belongs (inside or outside a label).
pub const HOST_COMMAND_IN_LABEL: &'static str = "ZPL2205";

/// Validator: a command that needs a printer capability the profile lacks.
pub const PRINTER_GATE: &'static str = "ZPL1402";

/// Validator: a command with more arguments than its arity.
pub const ARITY: &'static str = "ZPL1201";

/// Validator: a producer overrides an earlier value that nothing consumed.
pub const REDUNDANT_STATE: &'static str = "ZPL2305";

/// Validator: a field number used twice in a label.
pub const DUPLICATE_FIELD_NUMBER: &'static str = "ZPL2301";

/// Validator: a font that is neither built in nor loaded.
pub const UNKNOWN_FONT: &'static str = "ZPL2303";

/// Validator: graphic data whose length does not match its declared size.
pub const GF_DATA_LENGTH_MISMATCH: &'static str = "ZPL2307";

/// Validator: a media mode the profile does not support.
pub const MEDIA_MODE_UNSUPPORTED: &'static str = "ZPL1403";

/// Validator: a barcode data character outside the allowed set.
pub const BARCODE_INVALID_CHAR: &'static str = "ZPL2401";

/// Validator: barcode data of a length the symbology does not allow.
pub const BARCODE_DATA_LENGTH: &'static str = "ZPL2402";

/// Validator: total graphic data exceeds the printer's RAM.
pub const GF_MEMORY_EXCEEDED: &'static str = "ZPL2309";

/// Validator: the label relies on the profile for its dimensions.
pub const MISSING_EXPLICIT_DIMENSIONS: &'static str = "ZPL2310";

} // verus!
