//! What the parser computes, as a state machine over plain values: the
//! tokens as (kind, start, end) triples, the nodes and diagnostics as
//! views. The parser's executable steps are proved to follow these steps,
//! and a whole parse to equal [`spec_parse`].

use crate::args::{slots_view, spec_parse_args};
use crate::ast::{Label, Node, Presence};
use crate::diag::{
    DiagView, Severity, Span, PARSER_FIELD_DATA_INTERRUPTED, PARSER_INVALID_COMMAND, PARSER_MISSING_FIELD_SEPARATOR,
    PARSER_MISSING_TERMINATOR, PARSER_NON_ASCII_ARG, PARSER_NO_LABELS, PARSER_STRAY_CONTENT, PARSER_UNKNOWN_COMMAND,
};
use crate::lexer::{ascii_byte, spec_tokenize, tokens_from, TokKind};
use crate::opcode::spec_recognize;
use crate::tables::{spec_known, spec_lookup, spec_signature, ParserTables, Signature, SpacingPolicy};
use crate::text::{is_ws, trim};
use vstd::prelude::*;
use vstd::string::*;
use vstd::utf8::*;

verus! {

/// Tokens as (kind, start offset, end offset).
pub type TokView = Seq<(TokKind, int, int)>;

/// An argument slot as (key, presence, value).
pub type SlotView = (Option<Seq<char>>, Presence, Option<Seq<char>>);

/// A node as plain values.
pub enum NodeView {
    Command { code: Seq<char>, args: Seq<SlotView>, span: Span },
    FieldData { content: Seq<char>, hex_escaped: bool, span: Span },
    RawData { command: Seq<char>, data: Option<Seq<char>>, span: Span },
    Trivia { text: Seq<char>, span: Span },
}

/// The plain view of a node.
pub open spec fn node_view(n: Node) -> NodeView {
    match n {
        Node::Command { code, args, span } => NodeView::Command { code: code@, args: slots_view(args@), span },
        Node::FieldData { content, hex_escaped, span } => NodeView::FieldData { content: content@, hex_escaped, span },
        Node::RawData { command, data, span } => NodeView::RawData {
            command: command@,
            data: match data {
                Some(d) => Some(d@),
                None => None,
            },
            span,
        },
        Node::Trivia { text, span } => NodeView::Trivia { text: text@, span },
    }
}

/// The plain views of nodes.
pub open spec fn nodes_view(s: Seq<Node>) -> Seq<NodeView> {
    s.map_values(|n: Node| node_view(n))
}

/// The plain views of labels: each label's nodes.
pub open spec fn labels_view(s: Seq<Label>) -> Seq<Seq<NodeView>> {
    s.map_values(|l: Label| nodes_view(l.nodes@))
}

/// The views of nodes with one more node are the views before, with that
/// node's view added.
pub proof fn lemma_nodes_view_push(s: Seq<Node>, n: Node)
    ensures
        nodes_view(s.push(n)) == nodes_view(s).push(node_view(n)),
{
    assert(nodes_view(s.push(n)) =~= nodes_view(s).push(node_view(n)));
}

/// The views of a non-empty node sequence: those of all but the last node,
/// then the last one's.
pub proof fn lemma_nodes_view_last(s: Seq<Node>)
    requires
        s.len() > 0,
    ensures
        nodes_view(s) == nodes_view(s.drop_last()).push(node_view(s.last())),
{
    assert(s =~= s.drop_last().push(s.last()));
    lemma_nodes_view_push(s.drop_last(), s.last());
}

/// The views of labels with one more label.
pub proof fn lemma_labels_view_push(s: Seq<Label>, l: Label)
    ensures
        labels_view(s.push(l)) == labels_view(s).push(nodes_view(l.nodes@)),
{
    assert(labels_view(s.push(l)) =~= labels_view(s).push(nodes_view(l.nodes@)));
}

/// A bare command's view has no argument slots.
pub proof fn lemma_bare_command_view(nd: Node, code: Seq<char>, span: Span)
    requires
        bare_command(nd, code, span),
    ensures
        node_view(nd) == (NodeView::Command { code, args: seq![], span }),
{
    if let Node::Command { args, .. } = nd {
        assert(slots_view(args@) =~= Seq::<SlotView>::empty());
    }
}

/// What the parser is collecting.
pub enum ModeView {
    Normal,
    FieldData { content_start: int, hex_escape: bool },
    RawData { command: Seq<char>, content_start: int },
}

/// The parser's state as plain values.
pub struct ParseState {
    pub toks: TokView,
    pub pos: int,
    pub diags: Seq<DiagView>,
    pub labels: Seq<Seq<NodeView>>,
    pub nodes: Seq<NodeView>,
    pub in_label: bool,
    pub mode: ModeView,
    pub fh_active: bool,
    pub command_prefix: char,
    pub control_prefix: char,
    pub delimiter: char,
}

/// The text of token `k` of input bytes `b`.
pub open spec fn tok_text(b: Seq<u8>, toks: TokView, k: int) -> Seq<char> {
    decode_utf8(b.subrange(toks[k].1, toks[k].2))
}

/// The offset of token `p`, or the end of the input after the last token.
pub open spec fn off_at(toks: TokView, p: int, n: int) -> int {
    if 0 <= p < toks.len() {
        toks[p].1
    } else {
        n
    }
}

/// The first char boundary of `b` at or after `x`, or the end of `b`.
pub open spec fn next_boundary(b: Seq<u8>, x: int) -> int
    decreases b.len() - x,
{
    if x >= b.len() {
        b.len() as int
    } else if is_char_boundary(b, x) {
        x
    } else {
        next_boundary(b, x + 1)
    }
}

/// Token `k` is a value that begins with `;`: a comment, which runs to the
/// end of its line.
pub open spec fn comment_head(b: Seq<u8>, toks: TokView, k: int) -> bool {
    &&& 0 <= k < toks.len()
    &&& toks[k].0 is Value
    &&& tok_text(b, toks, k).len() > 0
    &&& tok_text(b, toks, k)[0] == ';'
}

/// Token `k` begins a comment after a command's arguments: a `;` value
/// that follows whitespace.
pub open spec fn trailing_comment(b: Seq<u8>, toks: TokView, k: int) -> bool {
    &&& comment_head(b, toks, k)
    &&& k > 0
    &&& toks[k - 1].0 is Whitespace
}

/// The first token at or after `p` that is a leader, a newline or the
/// start of a trailing comment, or the end of the tokens.
pub open spec fn line_end(b: Seq<u8>, toks: TokView, p: int) -> int
    decreases toks.len() - p,
{
    if 0 <= p < toks.len() && !(toks[p].0 is Leader) && !(toks[p].0 is Newline) && !trailing_comment(b, toks, p) {
        line_end(b, toks, p + 1)
    } else {
        p
    }
}

/// Tokens before a line's end are neither leaders nor newlines.
pub proof fn lemma_line_end_tokens(b: Seq<u8>, toks: TokView, p: int, k: int)
    requires
        0 <= p <= k < line_end(b, toks, p),
        p <= toks.len(),
    ensures
        !(toks[k].0 is Leader) && !(toks[k].0 is Newline),
    decreases k - p,
{
    if p < k {
        lemma_line_end_tokens(b, toks, p + 1, k);
    }
}

/// The first newline token at or after `p`, or the end of the tokens.
pub open spec fn next_newline(toks: TokView, p: int) -> int
    decreases toks.len() - p,
{
    if 0 <= p < toks.len() && !(toks[p].0 is Newline) {
        next_newline(toks, p + 1)
    } else {
        p
    }
}

/// `next_newline` is the first newline at or after `p`.
pub proof fn lemma_next_newline_at(toks: TokView, p: int, q: int)
    requires
        0 <= p <= q <= toks.len(),
        forall|k: int| p <= k < q ==> !(#[trigger] toks[k].0 is Newline),
        q < toks.len() ==> toks[q].0 is Newline,
    ensures
        next_newline(toks, p) == q,
    decreases q - p,
{
    if p < q {
        lemma_next_newline_at(toks, p + 1, q);
    }
}

/// The first leader token at or after `p`, or the end of the tokens.
pub open spec fn next_leader(toks: TokView, p: int) -> int
    decreases toks.len() - p,
{
    if 0 <= p < toks.len() && !(toks[p].0 is Leader) {
        next_leader(toks, p + 1)
    } else {
        p
    }
}

/// The first token at or after `p` that is neither a value nor a comma.
pub open spec fn stray_end(toks: TokView, p: int) -> int
    decreases toks.len() - p,
{
    if 0 <= p < toks.len() && (toks[p].0 is Value || toks[p].0 is Comma) {
        stray_end(toks, p + 1)
    } else {
        p
    }
}

/// The first token at or after `p` that starts at or after offset `off`.
pub open spec fn first_from(toks: TokView, p: int, off: int) -> int
    decreases toks.len() - p,
{
    if 0 <= p < toks.len() && toks[p].1 < off {
        first_from(toks, p + 1, off)
    } else {
        p
    }
}

/// `next_leader` is the first leader at or after `p`.
pub proof fn lemma_next_leader_at(toks: TokView, p: int, q: int)
    requires
        0 <= p <= q <= toks.len(),
        forall|k: int| p <= k < q ==> !(#[trigger] toks[k].0 is Leader),
        q < toks.len() ==> toks[q].0 is Leader,
    ensures
        next_leader(toks, p) == q,
    decreases q - p,
{
    if p < q {
        lemma_next_leader_at(toks, p + 1, q);
    }
}

/// `stray_end` is the first token at or after `p` that is neither a value
/// nor a comma.
pub proof fn lemma_stray_end_at(toks: TokView, p: int, q: int)
    requires
        0 <= p <= q <= toks.len(),
        forall|k: int| p <= k < q ==> (#[trigger] toks[k].0 is Value || toks[k].0 is Comma),
        q < toks.len() ==> !(toks[q].0 is Value || toks[q].0 is Comma),
    ensures
        stray_end(toks, p) == q,
    decreases q - p,
{
    if p < q {
        lemma_stray_end_at(toks, p + 1, q);
    }
}

/// `first_from` is the first token at or after `p` that starts at or
/// after `off`.
pub proof fn lemma_first_from_at(toks: TokView, p: int, off: int, q: int)
    requires
        0 <= p <= q <= toks.len(),
        forall|k: int| p <= k < q ==> (#[trigger] toks[k]).1 < off,
        q < toks.len() ==> toks[q].1 >= off,
    ensures
        first_from(toks, p, off) == q,
    decreases q - p,
{
    if p < q {
        lemma_first_from_at(toks, p + 1, off, q);
    }
}

/// The texts of tokens `a..c`, joined.
pub open spec fn token_texts(b: Seq<u8>, toks: TokView, a: int, c: int) -> Seq<char>
    decreases c - a,
{
    if a < c {
        token_texts(b, toks, a, c - 1) + tok_text(b, toks, c - 1)
    } else {
        seq![]
    }
}

/// Where reading a line from `p` stops: at its end, or past the newline
/// that ends it when `consume_newline` is set.
pub open spec fn line_stop(b: Seq<u8>, toks: TokView, p: int, consume_newline: bool) -> int {
    let e = line_end(b, toks, p);
    if 0 <= e < toks.len() && toks[e].0 is Newline && consume_newline {
        e + 1
    } else {
        e
    }
}

/// A line read from `p` ends between `p` and the end of the tokens.
pub proof fn lemma_line_end_bounds(b: Seq<u8>, toks: TokView, p: int)
    requires
        0 <= p <= toks.len(),
    ensures
        p <= line_end(b, toks, p) <= toks.len(),
    decreases toks.len() - p,
{
    if p < toks.len() && !(toks[p].0 is Leader) && !(toks[p].0 is Newline) && !trailing_comment(b, toks, p) {
        lemma_line_end_bounds(b, toks, p + 1);
    }
}

/// The command leader a leader token stands for: `^` when it is the
/// current command prefix, `~` otherwise.
pub open spec fn canonical_leader(text: Seq<char>, command_prefix: char) -> char {
    if text.len() > 0 && text[0] == command_prefix {
        '^'
    } else {
        '~'
    }
}

/// The leader token at `p` starts a real command: a value token follows it
/// and an opcode is recognized at that token's start.
pub open spec fn heads_command(b: Seq<u8>, t: Option<ParserTables>, toks: TokView, command_prefix: char, p: int) -> bool {
    &&& p + 1 < toks.len()
    &&& toks[p + 1].0 is Value
    &&& spec_recognize(t, canonical_leader(tok_text(b, toks, p), command_prefix), b, toks[p + 1].1).len() > 0
}

/// The error for a bare `leader` inside the free-form text of `code`.
pub open spec fn free_text_diag(code: Seq<char>, leader: char, span: Span) -> DiagView {
    (
        PARSER_INVALID_COMMAND@,
        Severity::Error,
        "reserved command leader '"@ + seq![leader] + "' inside "@ + code
            + " free-form text; avoid raw '^'/'~' in free-form content"@,
        Some(span),
        Some(seq![("command"@, code)]),
    )
}

/// Scanning the free-form text of `code` from token `p`: each bare leader
/// (one that starts no real command) is reported and the line after it is
/// taken as text. Gives where the scan stops, the text taken and the
/// errors reported, in order.
pub open spec fn free_text_scan(
    b: Seq<u8>,
    t: Option<ParserTables>,
    toks: TokView,
    command_prefix: char,
    code: Seq<char>,
    p: int,
) -> (int, Seq<char>, Seq<DiagView>)
    decreases toks.len() - p,
{
    if 0 <= p < toks.len() && toks[p].0 is Leader && !heads_command(b, t, toks, command_prefix, p) {
        let e = line_end(b, toks, p + 1);
        if p < e <= toks.len() {
            let r = free_text_scan(b, t, toks, command_prefix, code, e);
            let d = free_text_diag(
                code,
                canonical_leader(tok_text(b, toks, p), command_prefix),
                Span { start: toks[p].1 as usize, end: toks[p].2 as usize },
            );
            (r.0, token_texts(b, toks, p + 1, e) + r.1, seq![d] + r.2)
        } else {
            (p, seq![], seq![])
        }
    } else {
        (p, seq![], seq![])
    }
}

/// The spacing error for a command whose argument text is `raw`, under
/// `policy`: none when the text is blank.
pub open spec fn spacing_diag(code: Seq<char>, raw: Seq<char>, policy: SpacingPolicy, span: Span) -> Seq<DiagView> {
    let starts_ws = raw.len() > 0 && is_ws(raw[0]);
    if trim(raw).len() == 0 {
        seq![]
    } else if policy == SpacingPolicy::Forbid && starts_ws {
        seq![
            (
                PARSER_INVALID_COMMAND@,
                Severity::Error,
                code + " should not include a space between opcode and arguments"@,
                Some(span),
                Some(seq![("command"@, code), ("spacing"@, "spacingPolicy=forbid"@)]),
            ),
        ]
    } else if policy == SpacingPolicy::Require && !starts_ws {
        seq![
            (
                PARSER_INVALID_COMMAND@,
                Severity::Error,
                code + " expects a space between opcode and arguments"@,
                Some(span),
                Some(seq![("command"@, code), ("spacing"@, "spacingPolicy=require"@)]),
            ),
        ]
    } else {
        seq![]
    }
}

/// The spacing policy a command follows: its signature's, or `Forbid`.
pub open spec fn policy_of(sig: Option<Signature>) -> SpacingPolicy {
    match sig {
        Some(sg) => sg.spacing_policy,
        None => SpacingPolicy::Forbid,
    }
}

/// The argument slots of a command: field data is one `data` slot holding
/// the whole text (none when empty); other commands split their text.
pub open spec fn command_args_view(
    t: Option<ParserTables>,
    delimiter: char,
    code: Seq<char>,
    raw: Seq<char>,
    is_field_data: bool,
) -> Seq<(Option<Seq<char>>, Presence, Option<Seq<char>>)> {
    if is_field_data {
        if raw.len() > 0 {
            seq![(Some("data"@), Presence::Value, Some(raw))]
        } else {
            seq![]
        }
    } else {
        spec_parse_args(t, delimiter, code, raw)
    }
}

/// `nd` is the command `code` with argument slots `args` over `span`.
pub open spec fn command_node(nd: Node, code: Seq<char>, args: Seq<SlotView>, span: Span) -> bool {
    node_view(nd) == NodeView::Command { code, args, span }
}

/// `nd` is the command `code` with no arguments over `span`.
pub open spec fn bare_command(nd: Node, code: Seq<char>, span: Span) -> bool {
    match nd {
        Node::Command { code: c, args, span: sp } => c@ == code && args@.len() == 0 && sp == span,
        _ => false,
    }
}

/// `code` is a field-data command.
pub open spec fn field_data_of(t: Option<ParserTables>, code: Seq<char>) -> bool {
    match spec_lookup(t, code) {
        Some(ce) => ce.field_data,
        None => false,
    }
}

/// `code` is a raw-payload command (and not a field-data one).
pub open spec fn raw_payload_of(t: Option<ParserTables>, code: Seq<char>) -> bool {
    !field_data_of(t, code) && match spec_lookup(t, code) {
        Some(ce) => ce.raw_payload,
        None => false,
    }
}

/// `code` takes free-form text: neither field data nor a raw payload, and
/// its signature joins arguments with nothing.
pub open spec fn free_text_of(t: Option<ParserTables>, code: Seq<char>) -> bool {
    &&& !field_data_of(t, code)
    &&& !raw_payload_of(t, code)
    &&& spec_signature(t, code) matches Some(sg)
    &&& sg.joiner@.len() == 0
}

/// The warning for a code the tables do not know (none without tables).
pub open spec fn unknown_command_diag(t: Option<ParserTables>, code: Seq<char>, span: Span) -> Seq<DiagView> {
    match t {
        Some(tt) => if spec_known(tt, code) {
            seq![]
        } else {
            seq![
                (
                    PARSER_UNKNOWN_COMMAND@,
                    Severity::Warn,
                    "unknown command "@ + code,
                    Some(span),
                    Some(seq![("command"@, code)]),
                ),
            ]
        },
        None => seq![],
    }
}

/// The hex-escape flag after command `code` with flag `fh` before it.
pub open spec fn fh_after(t: Option<ParserTables>, code: Seq<char>, fh: bool) -> bool {
    match spec_lookup(t, code) {
        Some(ce) => if ce.closes_field {
            false
        } else if ce.hex_escape_modifier {
            true
        } else {
            fh
        },
        None => fh,
    }
}

/// A prefix or the delimiter after `^CC`/`^CT`/`^CD` with argument `arg`:
/// an ASCII argument replaces it when the command `applies` to it.
pub open spec fn prefix_update(current: char, arg: Option<char>, applies: bool) -> char {
    match arg {
        Some(ch) => if (ch as u32) < 128 && applies {
            ch
        } else {
            current
        },
        None => current,
    }
}

/// The error for a non-ASCII argument of a prefix command, if it has one.
pub open spec fn non_ascii_diag(code: Seq<char>, arg: Option<char>, span: Span) -> Seq<DiagView> {
    match arg {
        Some(ch) => if (ch as u32) >= 128 {
            seq![
                (
                    PARSER_NON_ASCII_ARG@,
                    Severity::Error,
                    code + " argument must be an ASCII character, got '"@ + seq![ch, '\''],
                    Some(span),
                    Some(seq![("command"@, code)]),
                ),
            ]
        } else {
            seq![]
        },
        None => seq![],
    }
}

/// The argument slots of a prefix command: `x`, holding the argument.
pub open spec fn prefix_args_view(arg: Option<char>) -> Seq<(Option<Seq<char>>, Presence, Option<Seq<char>>)> {
    match arg {
        Some(ch) => seq![(Some("x"@), Presence::Value, Some(seq![ch]))],
        None => seq![],
    }
}

/// Token triples moved `off` bytes on.
pub open spec fn shift_tokens(v: Seq<(TokKind, int, int)>, off: int) -> Seq<(TokKind, int, int)> {
    v.map_values(|t: (TokKind, int, int)| (t.0, t.1 + off, t.2 + off))
}

/// The entries of a "missing field separator" context after the optional
/// command entry, keys in sorted order.
pub open spec fn fs_context_tail(position: Seq<char>) -> Seq<(Seq<char>, Seq<char>)> {
    seq![
        ("expected"@, "^FS"@),
        ("suggested_edit.kind"@, "insert"@),
        ("suggested_edit.position"@, position),
        ("suggested_edit.text"@, "^FS"@),
        ("suggested_edit.title"@, "Insert ^FS (field separator)"@),
    ]
}

/// The context of a "missing field separator" diagnostic.
pub open spec fn spec_fs_context(command: Option<Seq<char>>, position: Seq<char>) -> Seq<(Seq<char>, Seq<char>)> {
    match command {
        Some(cmd) => seq![("command"@, cmd)] + fs_context_tail(position),
        None => fs_context_tail(position),
    }
}

/// The context of the "missing terminator" diagnostic.
pub open spec fn spec_xz_context() -> Seq<(Seq<char>, Seq<char>)> {
    seq![
        ("expected"@, "^XZ"@),
        ("suggested_edit.kind"@, "insert"@),
        ("suggested_edit.position"@, "document.end"@),
        ("suggested_edit.text"@, "^XZ"@),
        ("suggested_edit.title"@, "Insert ^XZ (label terminator)"@),
    ]
}


// ---------------------------------------------------------------------------
// One command, its pieces read from the state whose position is the token
// that holds the command's code
// ---------------------------------------------------------------------------

/// The error for a malformed command start: `msg` over `span`, with the
/// leader's text as context.
pub open spec fn leader_diag(msg: Seq<char>, span: Span, leader: Seq<char>) -> DiagView {
    (PARSER_INVALID_COMMAND@, Severity::Error, msg, Some(span), Some(seq![("command"@, leader)]))
}

/// Where the argument text begins: `hl` bytes into the code token, at a
/// char boundary.
pub open spec fn rest_start(b: Seq<u8>, s: ParseState, hl: int) -> int {
    let n = b.len() as int;
    let cts = s.toks[s.pos].1;
    next_boundary(b, if hl <= n - cts { cts + hl } else { n })
}

/// The argument text that shares the code token: what follows the code,
/// unless it begins with a prefix character.
pub open spec fn code_rest(b: Seq<u8>, s: ParseState, hl: int) -> Seq<char> {
    let rs = rest_start(b, s, hl);
    let re = s.toks[s.pos].2;
    if rs < re {
        let rem = decode_utf8(b.subrange(rs, re));
        if rem.len() > 0 && (rem[0] == s.command_prefix || rem[0] == s.control_prefix) {
            seq![]
        } else {
            rem
        }
    } else {
        seq![]
    }
}

/// Where the single-character argument of a prefix command ends.
pub open spec fn prefix_arg_end(b: Seq<u8>, s: ParseState, hl: int) -> int {
    let rs = rest_start(b, s, hl);
    if rs < b.len() {
        next_boundary(b, rs + 1)
    } else {
        rs
    }
}

/// The single-character argument of a prefix command, if the input goes
/// on after the code.
pub open spec fn prefix_arg(b: Seq<u8>, s: ParseState, hl: int) -> Option<char> {
    let rs = rest_start(b, s, hl);
    let x = decode_utf8(b.subrange(rs, prefix_arg_end(b, s, hl)));
    if rs < b.len() && x.len() > 0 {
        Some(x[0])
    } else {
        None
    }
}

/// The free-form text scan after the command line of `code`.
pub open spec fn code_scan(b: Seq<u8>, t: Option<ParserTables>, s: ParseState, code: Seq<char>) -> (
    int,
    Seq<char>,
    Seq<DiagView>,
) {
    free_text_scan(b, t, s.toks, s.command_prefix, code, line_stop(b, s.toks, s.pos + 1, true))
}

/// Where the command `code` ends.
pub open spec fn command_stop(b: Seq<u8>, t: Option<ParserTables>, s: ParseState, code: Seq<char>) -> int {
    if free_text_of(t, code) {
        code_scan(b, t, s, code).0
    } else {
        line_stop(b, s.toks, s.pos + 1, true)
    }
}

/// The argument text of the command `code`.
pub open spec fn command_raw(b: Seq<u8>, t: Option<ParserTables>, s: ParseState, code: Seq<char>, hl: int) -> Seq<
    char,
> {
    code_rest(b, s, hl) + token_texts(b, s.toks, s.pos + 1, line_end(b, s.toks, s.pos + 1)) + (if free_text_of(
        t,
        code,
    ) {
        code_scan(b, t, s, code).1
    } else {
        seq![]
    })
}

/// The errors the free-form text of `code` gives.
pub open spec fn command_scan_diags(b: Seq<u8>, t: Option<ParserTables>, s: ParseState, code: Seq<char>) -> Seq<
    DiagView,
> {
    if free_text_of(t, code) {
        code_scan(b, t, s, code).2
    } else {
        seq![]
    }
}

/// The first `;` at or after `i` that follows whitespace in `raw`.
pub open spec fn comment_from(raw: Seq<char>, i: int) -> Option<int>
    decreases raw.len() - i,
{
    if i <= 0 || i >= raw.len() {
        None
    } else if raw[i] == ';' && is_ws(raw[i - 1]) {
        Some(i)
    } else {
        comment_from(raw, i + 1)
    }
}

/// Where the trailing comment of a command's text begins: the first `;`
/// after whitespace. Field-data, raw-payload and free-form commands have
/// none: their text is theirs.
pub open spec fn comment_index(t: Option<ParserTables>, code: Seq<char>, raw: Seq<char>) -> Option<int> {
    if field_data_of(t, code) || raw_payload_of(t, code) || free_text_of(t, code) {
        None
    } else {
        comment_from(raw, 1)
    }
}

/// Where the command `code` ends in the input: the end of its last token.
pub open spec fn command_end(b: Seq<u8>, t: Option<ParserTables>, s: ParseState, code: Seq<char>) -> int {
    s.toks[command_stop(b, t, s, code) - 1].2
}

/// The trailing comment of the command `code`, if it has one.
pub open spec fn command_comment(b: Seq<u8>, t: Option<ParserTables>, s: ParseState, code: Seq<char>, hl: int) -> Option<
    Seq<char>,
> {
    let raw = command_raw(b, t, s, code, hl);
    match comment_index(t, code, raw) {
        Some(i) => Some(raw.skip(i)),
        None => None,
    }
}

/// The argument text of the command `code`: its text up to its trailing
/// comment.
pub open spec fn command_args_raw(b: Seq<u8>, t: Option<ParserTables>, s: ParseState, code: Seq<char>, hl: int) -> Seq<
    char,
> {
    let raw = command_raw(b, t, s, code, hl);
    match comment_index(t, code, raw) {
        Some(i) => raw.take(i),
        None => raw,
    }
}

/// Where the text of a command's line ends: at the end of the last token
/// before the line's end.
pub open spec fn line_text_end(b: Seq<u8>, s: ParseState) -> int {
    s.toks[line_end(b, s.toks, s.pos + 1) - 1].2
}

/// Where the trailing comment of the command `code` starts in the input:
/// its encoding's length before the end of the line's text (no earlier
/// than the leader at `ls`); the command's end when it has none.
pub open spec fn comment_start(b: Seq<u8>, t: Option<ParserTables>, s: ParseState, code: Seq<char>, hl: int, ls: int) -> int {
    let end = line_text_end(b, s);
    match command_comment(b, t, s, code, hl) {
        Some(c) => if encode_utf8(c).len() <= end - ls {
            end - encode_utf8(c).len()
        } else {
            ls
        },
        None => command_end(b, t, s, code),
    }
}

/// The span of the command `code`: from its leader to the start of its
/// trailing comment, or to the end of its last token.
pub open spec fn command_span(b: Seq<u8>, t: Option<ParserTables>, s: ParseState, code: Seq<char>, hl: int, ls: int) -> Span {
    Span { start: ls as usize, end: comment_start(b, t, s, code, hl, ls) as usize }
}

/// The trivia node of the trailing comment of the command `code`, if any.
pub open spec fn comment_nodes(b: Seq<u8>, t: Option<ParserTables>, s: ParseState, code: Seq<char>, hl: int, ls: int) -> Seq<
    NodeView,
> {
    match command_comment(b, t, s, code, hl) {
        Some(c) => seq![
            NodeView::Trivia {
                text: c,
                span: Span {
                    start: comment_start(b, t, s, code, hl, ls) as usize,
                    end: line_text_end(b, s) as usize,
                },
            },
        ],
        None => seq![],
    }
}

/// The spacing error of the command `code`, if any: none for `^XA`, `^XZ`
/// and raw-payload commands.
pub open spec fn command_spacing_diag(
    b: Seq<u8>,
    t: Option<ParserTables>,
    s: ParseState,
    code: Seq<char>,
    hl: int,
    ls: int,
) -> Seq<DiagView> {
    if code == "^XA"@ || code == "^XZ"@ || raw_payload_of(t, code) {
        seq![]
    } else {
        spacing_diag(
            code,
            command_args_raw(b, t, s, code, hl),
            policy_of(spec_signature(t, code)),
            command_span(b, t, s, code, hl, ls),
        )
    }
}

/// `^CC`, `^CT` or `^CD` (`which` is its last letter): the argument
/// character becomes the command prefix, the control prefix or the
/// delimiter when it is ASCII, the command is added, and the input after
/// the argument is tokenized again under the new characters.
pub open spec fn prefix_step(b: Seq<u8>, s: ParseState, code: Seq<char>, which: char, hl: int, ls: int) -> ParseState {
    let n = b.len() as int;
    let arg = prefix_arg(b, s, hl);
    let ae = prefix_arg_end(b, s, hl);
    let span = Span { start: ls as usize, end: ae as usize };
    let cp = prefix_update(s.command_prefix, arg, which == 'C');
    let ctp = prefix_update(s.control_prefix, arg, which == 'T');
    let d = prefix_update(s.delimiter, arg, which != 'C' && which != 'T');
    let p = first_from(s.toks, s.pos, ae);
    ParseState {
        toks: if ae < n {
            s.toks.take(p) + shift_tokens(
                tokens_from(b.subrange(ae, n), 0, ascii_byte(cp), ascii_byte(ctp), ascii_byte(d)),
                ae,
            )
        } else {
            s.toks
        },
        pos: p,
        diags: s.diags + non_ascii_diag(code, arg, span),
        nodes: s.nodes.push(NodeView::Command { code, args: prefix_args_view(arg), span }),
        command_prefix: cp,
        control_prefix: ctp,
        delimiter: d,
        ..s
    }
}

/// Any other command: its argument text is collected (and its free-form
/// text scanned), a trailing `;` comment is split off into a trivia node
/// that follows the command, unknown codes and spacing problems are
/// reported, `^XA`
/// opens a label (closing one left open), `^XZ` closes it, and any other
/// command is added with its arguments and starts field-data or raw-data
/// mode where the tables say so.
pub open spec fn finish_step(
    b: Seq<u8>,
    t: Option<ParserTables>,
    s: ParseState,
    code: Seq<char>,
    hl: int,
    ls: int,
) -> ParseState {
    let n = b.len() as int;
    let stop = command_stop(b, t, s, code);
    let span = command_span(b, t, s, code, hl, ls);
    let raw = command_args_raw(b, t, s, code, hl);
    let comment = comment_nodes(b, t, s, code, hl, ls);
    let diags = s.diags + command_scan_diags(b, t, s, code) + unknown_command_diag(t, code, span)
        + command_spacing_diag(b, t, s, code, hl, ls);
    let s1 = ParseState { pos: stop, diags, ..s };
    if code == "^XA"@ {
        ParseState {
            labels: if s.in_label {
                s.labels.push(s.nodes)
            } else {
                s.labels
            },
            nodes: (if s.in_label {
                Seq::<NodeView>::empty()
            } else {
                s.nodes
            }).push(NodeView::Command { code, args: seq![], span }) + comment,
            in_label: true,
            fh_active: false,
            mode: ModeView::Normal,
            ..s1
        }
    } else if code == "^XZ"@ {
        ParseState {
            labels: s.labels.push(s.nodes.push(NodeView::Command { code, args: seq![], span })),
            nodes: comment,
            in_label: false,
            mode: ModeView::Normal,
            ..s1
        }
    } else {
        let fd = field_data_of(t, code);
        let fh = fh_after(t, code, s.fh_active);
        let cs = off_at(s.toks, stop, n);
        ParseState {
            nodes: s.nodes.push(
                NodeView::Command { code, args: command_args_view(t, s.delimiter, code, raw, fd), span },
            ) + comment,
            fh_active: fh,
            mode: if raw_payload_of(t, code) {
                ModeView::RawData { command: code, content_start: cs }
            } else if fd {
                ModeView::FieldData { content_start: cs, hex_escape: fh }
            } else {
                ModeView::Normal
            },
            ..s1
        }
    }
}

/// The command whose leader is the current token: a leader with no code
/// after it is reported and skipped to the next leader; otherwise the
/// code is recognized and the command handled.
pub open spec fn command_step(b: Seq<u8>, t: Option<ParserTables>, s: ParseState) -> ParseState {
    let p = s.pos;
    let lt = tok_text(b, s.toks, p);
    let ls = s.toks[p].1;
    let le = s.toks[p].2;
    let canonical = canonical_leader(lt, s.command_prefix);
    let q = p + 1;
    if q >= s.toks.len() || !(s.toks[q].0 is Value) {
        ParseState {
            pos: next_leader(s.toks, q),
            diags: s.diags.push(
                leader_diag(
                    "invalid command: expected command code after leader"@,
                    Span { start: ls as usize, end: le as usize },
                    lt,
                ),
            ),
            ..s
        }
    } else {
        let cts = s.toks[q].1;
        let head = spec_recognize(t, canonical, b, cts);
        if head.len() == 0 {
            ParseState {
                pos: next_leader(s.toks, q),
                diags: s.diags.push(
                    leader_diag(
                        "missing command code after leader"@,
                        Span { start: ls as usize, end: next_boundary(b, cts + 1) as usize },
                        lt,
                    ),
                ),
                ..s
            }
        } else {
            let code = seq![canonical] + head;
            let hl = encode_utf8(head).len() as int;
            let s1 = ParseState { pos: q, ..s };
            if head.len() == 2 && head[0] == 'C' && (head[1] == 'C' || head[1] == 'T' || head[1] == 'D') {
                prefix_step(b, s1, code, head[1], hl, ls)
            } else {
                finish_step(b, t, s1, code, hl, ls)
            }
        }
    }
}

/// One step in normal mode: a command, skipped whitespace, a `;` comment
/// kept as trivia up to the end of its line, or a run of stray content
/// reported once.
pub open spec fn normal_step(b: Seq<u8>, t: Option<ParserTables>, s: ParseState) -> ParseState {
    let p = s.pos;
    let k = s.toks[p].0;
    if k is Leader {
        command_step(b, t, s)
    } else if k is Whitespace || k is Newline {
        ParseState { pos: p + 1, ..s }
    } else if comment_head(b, s.toks, p) {
        let e = next_newline(s.toks, p);
        let span = Span { start: s.toks[p].1 as usize, end: s.toks[e - 1].2 as usize };
        ParseState {
            pos: e,
            nodes: s.nodes.push(
                NodeView::Trivia { text: decode_utf8(b.subrange(s.toks[p].1, s.toks[e - 1].2)), span },
            ),
            ..s
        }
    } else {
        let e = stray_end(s.toks, p + 1);
        ParseState {
            pos: e,
            diags: s.diags.push(
                (
                    PARSER_STRAY_CONTENT@,
                    Severity::Warn,
                    "stray content outside of command context"@,
                    Some(Span { start: s.toks[p].1 as usize, end: s.toks[e - 1].2 as usize }),
                    None,
                ),
            ),
            ..s
        }
    }
}

/// The field data between `cs` and `ls`, if there is any.
pub open spec fn field_content(b: Seq<u8>, nodes: Seq<NodeView>, cs: int, ls: int, hx: bool) -> Seq<NodeView> {
    if cs < ls {
        nodes.push(
            NodeView::FieldData {
                content: decode_utf8(b.subrange(cs, ls)),
                hex_escaped: hx,
                span: Span { start: cs as usize, end: ls as usize },
            },
        )
    } else {
        nodes
    }
}

/// One step in field-data mode: content up to the next leader is skipped;
/// a command that closes the field ends it; a bare leader is reported and
/// the field goes on after it; any other command interrupts the field.
pub open spec fn field_step(b: Seq<u8>, t: Option<ParserTables>, s: ParseState) -> ParseState {
    match s.mode {
        ModeView::FieldData { content_start: cs, hex_escape: hx } => {
            let n = b.len() as int;
            let p = next_leader(s.toks, s.pos);
            if p >= s.toks.len() {
                ParseState { pos: p, ..s }
            } else {
                let ls = s.toks[p].1;
                let le = s.toks[p].2;
                let text = tok_text(b, s.toks, p);
                let lc = if text.len() > 0 {
                    text[0]
                } else {
                    '\0'
                };
                let nv = p + 1 < s.toks.len() && s.toks[p + 1].0 is Value;
                let nodes = field_content(b, s.nodes, cs, ls, hx);
                let closes = lc == s.command_prefix && nv && match spec_lookup(
                    t,
                    seq!['^'] + spec_recognize(t, '^', b, s.toks[p + 1].1),
                ) {
                    Some(ce) => ce.closes_field,
                    None => false,
                };
                if closes {
                    ParseState { pos: p, nodes, mode: ModeView::Normal, fh_active: false, ..s }
                } else {
                    let canonical = if lc == s.command_prefix {
                        '^'
                    } else {
                        '~'
                    };
                    let head = if nv {
                        spec_recognize(t, canonical, b, s.toks[p + 1].1)
                    } else {
                        seq![]
                    };
                    let interrupter = seq![canonical] + head;
                    if head.len() == 0 {
                        ParseState {
                            pos: p + 1,
                            nodes,
                            diags: s.diags.push(
                                (
                                    PARSER_INVALID_COMMAND@,
                                    Severity::Error,
                                    "reserved command leader '"@ + interrupter
                                        + "' encountered inside field data; use encoded text or remove the character"@,
                                    Some(Span { start: ls as usize, end: le as usize }),
                                    Some(seq![("command"@, interrupter)]),
                                ),
                            ),
                            mode: ModeView::FieldData { content_start: off_at(s.toks, p + 1, n), hex_escape: hx },
                            ..s
                        }
                    } else {
                        ParseState {
                            pos: p,
                            nodes,
                            diags: s.diags.push(
                                (
                                    PARSER_FIELD_DATA_INTERRUPTED@,
                                    Severity::Warn,
                                    "field data interrupted by "@ + interrupter + " before ^FS"@,
                                    Some(Span { start: ls as usize, end: (ls + 1) as usize }),
                                    Some(seq![("command"@, interrupter)]),
                                ),
                            ),
                            mode: ModeView::Normal,
                            fh_active: false,
                            ..s
                        }
                    }
                }
            }
        },
        _ => s,
    }
}

/// One step in raw-data mode: the payload runs to the next leader, where
/// normal mode resumes; at the end of the input the mode stays open.
pub open spec fn raw_step(b: Seq<u8>, s: ParseState) -> ParseState {
    match s.mode {
        ModeView::RawData { command, content_start: cs } => {
            let p = next_leader(s.toks, s.pos);
            if p < s.toks.len() {
                let ls = s.toks[p].1;
                ParseState {
                    pos: p,
                    nodes: if cs < ls {
                        s.nodes.push(
                            NodeView::RawData {
                                command,
                                data: Some(decode_utf8(b.subrange(cs, ls))),
                                span: Span { start: cs as usize, end: ls as usize },
                            },
                        )
                    } else {
                        s.nodes
                    },
                    mode: ModeView::Normal,
                    ..s
                }
            } else {
                ParseState { pos: p, ..s }
            }
        },
        _ => s,
    }
}

/// One step of the parser in its current mode.
pub open spec fn parse_step(b: Seq<u8>, t: Option<ParserTables>, s: ParseState) -> ParseState {
    match s.mode {
        ModeView::Normal => normal_step(b, t, s),
        ModeView::FieldData { .. } => field_step(b, t, s),
        ModeView::RawData { .. } => raw_step(b, s),
    }
}

/// At most `fuel` steps, stopping at the end of the tokens.
pub open spec fn parse_run(b: Seq<u8>, t: Option<ParserTables>, s: ParseState, fuel: nat) -> ParseState
    decreases fuel,
{
    if fuel == 0 || s.pos >= s.toks.len() {
        s
    } else {
        parse_run(b, t, parse_step(b, t, s), (fuel - 1) as nat)
    }
}

/// The end of the input: open field or raw data is closed and reported, a
/// label left open is reported and closed, commands outside labels form a
/// label of their own, and an input with no label gets a note.
pub open spec fn parse_finish(b: Seq<u8>, s: ParseState) -> (Seq<Seq<NodeView>>, Seq<DiagView>) {
    let n = b.len() as int;
    let at_end = Span { start: n as usize, end: n as usize };
    let (nodes1, diags1) = match s.mode {
        ModeView::RawData { command, content_start: cs } => {
            let span = Span { start: cs as usize, end: n as usize };
            (
                if cs < n {
                    s.nodes.push(NodeView::RawData { command, data: Some(decode_utf8(b.subrange(cs, n))), span })
                } else {
                    s.nodes
                },
                s.diags.push(
                    (
                        PARSER_MISSING_FIELD_SEPARATOR@,
                        Severity::Error,
                        "unterminated raw data for "@ + command + " at end of input"@,
                        Some(span),
                        Some(spec_fs_context(Some(command), "range.end"@)),
                    ),
                ),
            )
        },
        ModeView::FieldData { content_start: cs, hex_escape: hx } => {
            let span = Span { start: cs as usize, end: n as usize };
            (
                field_content(b, s.nodes, cs, n, hx),
                s.diags.push(
                    (
                        PARSER_MISSING_FIELD_SEPARATOR@,
                        Severity::Error,
                        "missing field separator (^FS) before end of input"@,
                        Some(span),
                        Some(spec_fs_context(None, "range.end"@)),
                    ),
                ),
            )
        },
        ModeView::Normal => (s.nodes, s.diags),
    };
    let (labels2, diags2) = if s.in_label {
        (
            s.labels.push(nodes1),
            diags1.push(
                (
                    PARSER_MISSING_TERMINATOR@,
                    Severity::Error,
                    "missing terminator (^XZ)"@,
                    Some(at_end),
                    Some(spec_xz_context()),
                ),
            ),
        )
    } else if nodes1.len() > 0 {
        (s.labels.push(nodes1), diags1)
    } else {
        (s.labels, diags1)
    };
    if labels2.len() == 0 {
        (
            labels2,
            diags2.push(
                (
                    PARSER_NO_LABELS@,
                    Severity::Info,
                    "no labels detected"@,
                    Some(Span { start: 0, end: n as usize }),
                    None,
                ),
            ),
        )
    } else {
        (labels2, diags2)
    }
}

/// The state before the first token of `input`.
pub open spec fn initial_state(input: &str) -> ParseState {
    ParseState {
        toks: spec_tokenize(input, '^', '~', ','),
        pos: 0,
        diags: seq![],
        labels: seq![],
        nodes: seq![],
        in_label: false,
        mode: ModeView::Normal,
        fh_active: false,
        command_prefix: '^',
        control_prefix: '~',
        delimiter: ',',
    }
}

/// What parsing `input` with tables `t` gives: the labels, each as its
/// nodes, and the diagnostics, in order.
pub open spec fn spec_parse(input: &str, t: Option<ParserTables>) -> (Seq<Seq<NodeView>>, Seq<DiagView>) {
    let b = input.spec_bytes();
    parse_finish(b, parse_run(b, t, initial_state(input), (2 * b.len() + 2) as nat))
}

} // verus!
