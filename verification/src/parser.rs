//! ZPL parser: turns the token stream into labels of commands, field data
//! and raw payloads, with diagnostics for malformed input.
//!
//! The parser is a small state machine: in normal mode it reads commands;
//! after `^FD`/`^FV` it collects field data up to `^FS`; after a raw-payload
//! command (`^GF`, `~DG`) it collects data up to the next command leader.
//! `^CC`/`^CT`/`^CD` change the prefixes or delimiter and the rest of the
//! input is tokenized again.

use crate::args::{parse_args, slots_view, spec_parse_args};
use crate::ast::{ArgSlot, Ast, Label, Node, Presence};
use crate::diag::{
    ctx_view, diag_view, diags_view, DiagView, Diagnostic, Severity, Span, PARSER_FIELD_DATA_INTERRUPTED, PARSER_INVALID_COMMAND,
    PARSER_MISSING_FIELD_SEPARATOR, PARSER_MISSING_TERMINATOR, PARSER_NON_ASCII_ARG, PARSER_NO_LABELS,
    PARSER_STRAY_CONTENT, PARSER_UNKNOWN_COMMAND,
};
use crate::lexer::{ascii_byte, is_ascii_char, texts_match, token_view, tokens_from, tokenize, tokenize_with_config, tokens_ordered, TokKind, Token};
use crate::opcode::{recognize_opcode, spec_recognize};
use crate::parse_spec::{
    bare_command, canonical_leader, code_rest, code_scan, command_args_view, command_node, command_raw, command_scan_diags,
    command_spacing_diag, command_span, command_step, command_stop, field_content, field_data_of, field_step,
    command_args_raw, command_comment, command_end, comment_from, comment_nodes, comment_start, comment_head, fh_after, finish_step, first_from, lemma_next_newline_at, next_newline, trailing_comment, free_text_diag, free_text_of, free_text_scan, heads_command, initial_state,
    labels_view, leader_diag, lemma_bare_command_view, lemma_first_from_at, lemma_labels_view_push, lemma_line_end_bounds,
    lemma_next_leader_at, lemma_line_end_tokens, line_text_end, lemma_nodes_view_last, lemma_nodes_view_push, lemma_stray_end_at, line_end, line_stop, next_boundary, next_leader, node_view,
    nodes_view, non_ascii_diag, normal_step, off_at, parse_finish, parse_run, parse_step, policy_of, prefix_arg,
    prefix_arg_end, prefix_args_view, prefix_step, prefix_update, raw_payload_of, raw_step, rest_start, shift_tokens,
    spacing_diag, spec_fs_context, spec_parse, spec_xz_context, stray_end, tok_text, token_texts,
    unknown_command_diag, ModeView, NodeView, ParseState,
};
use crate::tables::{
    effective_signature, lookup_command, opt_tables, opt_tables_wf, spec_known, spec_lookup, spec_signature, CommandEntry,
    ParserTables, Signature, SpacingPolicy,
};
use crate::text::{chars_range, append_str, char_string, msg2, msg3, byte_slice, char_is_ws, chars_of, extend_chars, byte_len, lemma_boundary_of_suffix, owned, is_ws, trim, push_char, str_eq, string_from_chars, trim_chars};
use vstd::prelude::*;
use vstd::string::*;
use vstd::utf8::*;

verus! {

broadcast use vstd::seq::group_seq_axioms;

/// Result of parsing a ZPL input string.
#[derive(Debug)]
pub struct ParseResult {
    /// The parsed abstract syntax tree.
    pub ast: Ast,
    /// Diagnostics (errors, warnings, info) produced during parsing.
    pub diagnostics: Vec<Diagnostic>,
}

/// A span inside an input of `n` bytes.
pub open spec fn span_ok(sp: Span, n: int) -> bool {
    sp.start <= sp.end && sp.end <= n
}

/// A node the parser can produce for input bytes `b`: commands carry a
/// canonical code (`^` or `~` followed by at least one character); field
/// data and raw data hold exactly the input bytes their span covers;
/// comments lie inside the input.
pub open spec fn node_ok(nd: Node, b: Seq<u8>) -> bool {
    match nd {
        Node::Command { code, span, .. } => span_ok(span, b.len() as int) && code@.len() >= 2 && (
        code@[0] == '^' || code@[0] == '~'),
        Node::FieldData { content, span, .. } => span_ok(span, b.len() as int) && encode_utf8(
            content@,
        ) == b.subrange(span.start as int, span.end as int),
        Node::RawData { data, span, .. } => span_ok(span, b.len() as int) && data is Some
            && encode_utf8(data->0@) == b.subrange(span.start as int, span.end as int),
        Node::Trivia { span, .. } => span_ok(span, b.len() as int),
    }
}

/// Every node is one the parser can produce.
pub open spec fn nodes_ok(s: Seq<Node>, b: Seq<u8>) -> bool {
    forall|k: int| 0 <= k < s.len() ==> node_ok(#[trigger] s[k], b)
}

/// Every label is non-empty and holds well-formed nodes.
pub open spec fn labels_ok(s: Seq<Label>, b: Seq<u8>) -> bool {
    forall|k: int|
        0 <= k < s.len() ==> (#[trigger] s[k]).nodes@.len() > 0 && nodes_ok(s[k].nodes@, b)
}

/// Every diagnostic span lies inside the input.
pub open spec fn diags_ok(s: Seq<Diagnostic>, n: int) -> bool {
    forall|k: int| 0 <= k < s.len() ==> ((#[trigger] s[k]).span matches Some(sp) ==> span_ok(sp, n))
}

/// The nodes of a sequence of labels, label by label.
pub open spec fn flat(labels: Seq<Label>) -> Seq<Node>
    decreases labels.len(),
{
    if labels.len() == 0 {
        seq![]
    } else {
        flat(labels.drop_last()) + labels.last().nodes@
    }
}

/// Nodes stand in source order and do not overlap: each ends at or before
/// the start of every later one.
pub open spec fn in_source_order(s: Seq<Node>) -> bool {
    forall|k: int, l: int|
        0 <= k < l < s.len() ==> (#[trigger] s[k]).spec_span().end <= (#[trigger] s[l]).spec_span().start
}

/// Every node ends at or before offset `w`.
pub open spec fn ends_by(s: Seq<Node>, w: int) -> bool {
    forall|k: int| 0 <= k < s.len() ==> (#[trigger] s[k]).spec_span().end <= w
}

/// Tokens from `p` on do not overlap and come in order.
pub open spec fn ordered_from<'a>(toks: Seq<Token<'a>>, p: int) -> bool {
    forall|k: int, l: int| p <= k < l < toks.len() ==> (#[trigger] toks[k]).end <= (#[trigger] toks[l]).start
}

/// Adding a node that starts after every node so far keeps source order.
proof fn lemma_order_push(s: Seq<Node>, nd: Node, w: int)
    requires
        in_source_order(s),
        ends_by(s, w),
        w <= nd.spec_span().start,
    ensures
        in_source_order(s.push(nd)),
{
    let t = s.push(nd);
    assert forall|k: int, l: int| 0 <= k < l < t.len() implies (#[trigger] t[k]).spec_span().end <= (#[trigger] t[l]).spec_span().start by {
        if l < s.len() {
            assert(t[k] == s[k] && t[l] == s[l]);
        } else {
            assert(t[k] == s[k]);
        }
    }
}

/// After adding a node that ends by `c`, every node ends by `c` when the
/// earlier ones ended by `w <= c`.
proof fn lemma_ends_by_push(s: Seq<Node>, nd: Node, w: int, c: int)
    requires
        ends_by(s, w),
        w <= c,
        nd.spec_span().end <= c,
    ensures
        ends_by(s.push(nd), c),
{
    let t = s.push(nd);
    assert forall|k: int| 0 <= k < t.len() implies (#[trigger] t[k]).spec_span().end <= c by {
        if k < s.len() {
            assert(t[k] == s[k]);
        }
    }
}

/// Closing a label does not change the sequence of all nodes.
proof fn lemma_flat_push(labels: Seq<Label>, lab: Label)
    ensures
        flat(labels.push(lab)) == flat(labels) + lab.nodes@,
{
    assert(labels.push(lab).drop_last() =~= labels);
}

/// What every parse result satisfies for `input`.
pub open spec fn parse_ok(input: &str, r: ParseResult) -> bool {
    let b = input.spec_bytes();
    &&& labels_ok(r.ast.labels@, b)
    &&& in_source_order(flat(r.ast.labels@))
    &&& diags_ok(r.diagnostics@, b.len() as int)
    &&& r.ast.labels@.len() == 0 ==> {
        &&& r.diagnostics@.len() > 0
        &&& r.diagnostics@.last().id@ == crate::diag::PARSER_NO_LABELS@
        &&& r.diagnostics@.last().severity == Severity::Info
        &&& r.diagnostics@.last().span == Some(Span { start: 0, end: b.len() as usize })
    }
}

enum Mode {
    Normal,
    FieldData { content_start: usize, hex_escape: bool },
    RawData { command: String, content_start: usize },
}

/// The plain view of a mode.
spec fn mode_view(m: Mode) -> ModeView {
    match m {
        Mode::Normal => ModeView::Normal,
        Mode::FieldData { content_start, hex_escape } => ModeView::FieldData {
            content_start: content_start as int,
            hex_escape,
        },
        Mode::RawData { command, content_start } => ModeView::RawData {
            command: command@,
            content_start: content_start as int,
        },
    }
}

struct Parser<'a> {
    input: &'a str,
    tables: Option<&'a ParserTables>,
    toks: Vec<Token<'a>>,
    pos: usize,
    diags: Vec<Diagnostic>,
    labels: Vec<Label>,
    nodes: Vec<Node>,
    in_label: bool,
    mode: Mode,
    fh_active: bool,
    command_prefix: char,
    control_prefix: char,
    delimiter: char,
}

/// Token starts strictly increase.
pub open spec fn starts_increasing<'a>(toks: Seq<Token<'a>>) -> bool {
    forall|k: int, l: int| 0 <= k < l < toks.len() ==> (#[trigger] toks[k]).start < (#[trigger] toks[l]).start
}

/// Every token is non-empty.
pub open spec fn tokens_nonempty<'a>(toks: Seq<Token<'a>>) -> bool {
    forall|k: int| 0 <= k < toks.len() ==> (#[trigger] toks[k]).start < toks[k].end
}

impl<'a> Parser<'a> {
    spec fn bytes(&self) -> Seq<u8> {
        self.input.spec_bytes()
    }

    spec fn n(&self) -> int {
        self.input.spec_bytes().len() as int
    }

    spec fn cs_ok(&self, cs: usize) -> bool {
        &&& cs <= self.n()
        &&& is_char_boundary(self.bytes(), cs as int)
        &&& self.pos < self.toks@.len() ==> cs <= self.toks@[self.pos as int].start
    }

    spec fn mode_ok(&self) -> bool {
        match self.mode {
            Mode::Normal => true,
            Mode::FieldData { content_start, .. } => self.cs_ok(content_start),
            Mode::RawData { content_start, .. } => self.cs_ok(content_start),
        }
    }

    spec fn wf(&self) -> bool {
        &&& self.wf_core()
        &&& self.in_label ==> self.nodes@.len() > 0
        &&& self.order_ok()
    }

    /// All nodes so far: those of the closed labels, then the open ones.
    spec fn all_nodes(&self) -> Seq<Node> {
        flat(self.labels@) + self.nodes@
    }

    /// The offset no node may pass: the current token in normal mode, the
    /// start of the content being collected otherwise.
    spec fn watermark(&self) -> int {
        match self.mode {
            Mode::Normal => self.cur_off(),
            Mode::FieldData { content_start, .. } => content_start as int,
            Mode::RawData { content_start, .. } => content_start as int,
        }
    }

    /// Nodes in source order, all before the watermark; the tokens still
    /// to read in order.
    spec fn order_ok(&self) -> bool {
        &&& in_source_order(self.all_nodes())
        &&& ends_by(self.all_nodes(), self.watermark())
        &&& ordered_from(self.toks@, self.pos as int)
    }

    spec fn wf_core(&self) -> bool {
        &&& valid_utf8(self.bytes())
        &&& is_ascii_char(self.command_prefix)
        &&& is_ascii_char(self.control_prefix)
        &&& is_ascii_char(self.delimiter)
        &&& opt_tables_wf(opt_tables(self.tables))
        &&& self.pos <= self.toks@.len()
        &&& self.toks.len() == self.toks@.len()
        &&& texts_match(self.input, self.toks@)
        &&& tokens_nonempty(self.toks@)
        &&& starts_increasing(self.toks@)
        &&& self.mode_ok()
        &&& nodes_ok(self.nodes@, self.bytes())
        &&& labels_ok(self.labels@, self.bytes())
        &&& diags_ok(self.diags@, self.n())
    }

    spec fn cur_off(&self) -> int {
        if self.pos < self.toks@.len() {
            self.toks@[self.pos as int].start as int
        } else {
            self.n()
        }
    }

    spec fn measure(&self) -> int {
        2 * (self.n() - self.cur_off()) + match self.mode {
            Mode::Normal => 0int,
            _ => 1int,
        }
    }

    proof fn lemma_cur_off_bounds(&self)
        requires
            self.wf_core(),
        ensures
            0 <= self.cur_off() <= self.n(),
            self.pos < self.toks@.len() ==> self.cur_off() < self.n(),
    {
        if self.pos < self.toks@.len() {
            assert(self.toks@[self.pos as int].start < self.toks@[self.pos as int].end);
        }
    }

    /// Advancing `pos` within the same tokens moves the current offset forward.
    proof fn lemma_advance(&self, p: usize)
        requires
            self.wf_core(),
            self.pos < p <= self.toks@.len(),
        ensures
            (if p < self.toks@.len() {
                self.toks@[p as int].start as int
            } else {
                self.n()
            }) > self.cur_off(),
    {
        assert(self.toks@[self.pos as int].start < self.toks@[self.pos as int].end);
        if p < self.toks@.len() {
            assert(self.toks@[self.pos as int].start < self.toks@[p as int].start);
        }
    }

    /// The smallest char boundary at or after `pos`, clamped to the input length.
    fn next_char_boundary(s: &str, pos: usize) -> (r: usize)
        requires
            valid_utf8(s.spec_bytes()),
        ensures
            r <= s.spec_bytes().len(),
            is_char_boundary(s.spec_bytes(), r as int),
            pos <= s.spec_bytes().len() ==> pos <= r,
            r == next_boundary(s.spec_bytes(), pos as int),
    {
        let mut p = pos;
        let n = byte_len(s);
        while p < n && !s.is_char_boundary(p)
            invariant
                pos <= p,
                n == s.spec_bytes().len(),
                next_boundary(s.spec_bytes(), p as int) == next_boundary(s.spec_bytes(), pos as int),
            decreases n - p,
        {
            p = p + 1;
        }
        proof {
            is_char_boundary_start_end_of_seq(s.spec_bytes());
        }
        if p < n {
            p
        } else {
            n
        }
    }

    fn new(input: &'a str, tables: Option<&'a ParserTables>) -> (p: Parser<'a>)
        requires
            opt_tables_wf(opt_tables(tables)),
        ensures
            p.wf(),
            p.input == input,
            p.tables == tables,
            p.mode is Normal,
            p.labels@.len() == 0,
            p.diags@.len() == 0,
            p.pview() == initial_state(input),
    {
        proof {
            encode_utf8_valid_utf8(input@);
        }
        let toks = tokenize(input);
        let p = Parser {
            input,
            tables,
            toks,
            pos: 0,
            diags: Vec::new(),
            labels: Vec::new(),
            nodes: Vec::new(),
            in_label: false,
            mode: Mode::Normal,
            fh_active: false,
            command_prefix: '^',
            control_prefix: '~',
            delimiter: ',',
        };
        proof {
            assert(diags_view(p.diags@) =~= Seq::<DiagView>::empty());
            assert(labels_view(p.labels@) =~= Seq::<Seq<NodeView>>::empty());
            assert(nodes_view(p.nodes@) =~= Seq::<NodeView>::empty());
            assert(p.pview() =~= initial_state(input));
            assert forall|k: int, l: int| 0 <= k < l < p.toks@.len() implies (#[trigger] p.toks@[k]).start
                < (#[trigger] p.toks@[l]).start by {
                assert(p.toks@[k].start < p.toks@[k].end);
            }
        }
        p
    }

    fn at_end(&self) -> (r: bool)
        ensures
            r == (self.pos >= self.toks@.len()),
            self.toks@.len() <= usize::MAX,
    {
        self.pos >= self.toks.len()
    }

    /// Skips to the next leader token (or the end): the recovery point after
    /// malformed input.
    fn skip_to_next_leader(&mut self)
        requires
            old(self).wf_core(),
        ensures
            final(self).wf_core(),
            final(self).pos >= old(self).pos,
            final(self).toks == old(self).toks,
            final(self).input == old(self).input,
            final(self).mode == old(self).mode,
            final(self).labels == old(self).labels,
            final(self).nodes == old(self).nodes,
            final(self).diags == old(self).diags,
            final(self).in_label == old(self).in_label,
            final(self).tables == old(self).tables,
            final(self).command_prefix == old(self).command_prefix,
            final(self).control_prefix == old(self).control_prefix,
            final(self).delimiter == old(self).delimiter,
            final(self).fh_active == old(self).fh_active,
            forall|k: int| old(self).pos <= k < final(self).pos ==> !(#[trigger] final(self).toks@[k].kind is Leader),
            final(self).pos < final(self).toks@.len() ==> final(self).toks@[final(self).pos as int].kind is Leader,
            final(self).pos == next_leader(token_view(old(self).toks@), old(self).pos as int),
    {
        while !self.at_end() && !(self.toks[self.pos].kind == TokKind::Leader)
            invariant
                self.wf_core(),
                self.pos >= old(self).pos,
                forall|k: int| old(self).pos <= k < self.pos ==> !(#[trigger] self.toks@[k].kind is Leader),
                self.toks == old(self).toks,
                self.input == old(self).input,
                self.mode == old(self).mode,
                self.labels == old(self).labels,
                self.nodes == old(self).nodes,
                self.diags == old(self).diags,
                self.in_label == old(self).in_label,
                self.tables == old(self).tables,
                self.command_prefix == old(self).command_prefix,
                self.control_prefix == old(self).control_prefix,
                self.delimiter == old(self).delimiter,
                self.fh_active == old(self).fh_active,
            decreases self.toks@.len() - self.pos,
        {
            proof {
                self.lemma_mode_advance(self.pos + 1);
            }
            self.pos = self.pos + 1;
        }
        proof {
            lemma_next_leader_at(token_view(self.toks@), old(self).pos as int, self.pos as int);
        }
    }

    /// Moving `pos` forward keeps the mode's content start valid.
    proof fn lemma_mode_advance(&self, p: int)
        requires
            self.wf_core(),
            self.pos <= p <= self.toks@.len(),
        ensures
            self.mode matches Mode::FieldData { content_start, .. } ==> (p < self.toks@.len()
                ==> content_start <= self.toks@[p].start),
            self.mode matches Mode::RawData { content_start, .. } ==> (p < self.toks@.len()
                ==> content_start <= self.toks@[p].start),
    {
        if p < self.toks@.len() && self.pos < p {
            assert(self.toks@[self.pos as int].start < self.toks@[p].start);
        }
    }

    fn push_diag(&mut self, d: Diagnostic)
        requires
            old(self).wf_core(),
            d.span matches Some(sp) ==> span_ok(sp, old(self).n()),
        ensures
            final(self).wf_core(),
            final(self).diags@ == old(self).diags@.push(d),
            final(self).input == old(self).input,
            final(self).toks == old(self).toks,
            final(self).pos == old(self).pos,
            final(self).mode == old(self).mode,
            final(self).labels == old(self).labels,
            final(self).nodes == old(self).nodes,
            final(self).in_label == old(self).in_label,
            final(self).tables == old(self).tables,
            final(self).command_prefix == old(self).command_prefix,
            final(self).control_prefix == old(self).control_prefix,
            final(self).delimiter == old(self).delimiter,
            final(self).fh_active == old(self).fh_active,
    {
        self.diags.push(d);
        proof {
            let ds = self.diags@;
            assert forall|k: int| 0 <= k < ds.len() implies ((#[trigger] ds[k]).span matches Some(sp)
                ==> span_ok(sp, self.n())) by {
                if k < ds.len() - 1 {
                    assert(ds[k] == old(self).diags@[k]);
                }
            }
        }
    }

    fn push_node(&mut self, nd: Node)
        requires
            old(self).wf_core(),
            node_ok(nd, old(self).bytes()),
        ensures
            final(self).wf_core(),
            final(self).nodes@ == old(self).nodes@.push(nd),
            final(self).all_nodes() == old(self).all_nodes().push(nd),
            final(self).input == old(self).input,
            final(self).toks == old(self).toks,
            final(self).pos == old(self).pos,
            final(self).mode == old(self).mode,
            final(self).labels == old(self).labels,
            final(self).diags == old(self).diags,
            final(self).in_label == old(self).in_label,
            final(self).tables == old(self).tables,
            final(self).command_prefix == old(self).command_prefix,
            final(self).control_prefix == old(self).control_prefix,
            final(self).delimiter == old(self).delimiter,
            final(self).fh_active == old(self).fh_active,
    {
        self.nodes.push(nd);
        proof {
            let ns = self.nodes@;
            assert forall|k: int| 0 <= k < ns.len() implies node_ok(#[trigger] ns[k], self.bytes()) by {
                if k < ns.len() - 1 {
                    assert(ns[k] == old(self).nodes@[k]);
                }
            }
            assert(self.all_nodes() =~= old(self).all_nodes().push(nd));
        }
    }

    /// Closes the current label: moves the collected nodes into a label.
    fn close_label(&mut self)
        requires
            old(self).wf_core(),
            old(self).nodes@.len() > 0,
        ensures
            final(self).wf_core(),
            final(self).nodes@.len() == 0,
            final(self).labels@.len() == old(self).labels@.len() + 1,
            final(self).labels@ == old(self).labels@.push(Label { nodes: old(self).nodes }),
            final(self).all_nodes() == old(self).all_nodes(),
            final(self).input == old(self).input,
            final(self).toks == old(self).toks,
            final(self).pos == old(self).pos,
            final(self).mode == old(self).mode,
            final(self).diags == old(self).diags,
            final(self).in_label == old(self).in_label,
            final(self).tables == old(self).tables,
            final(self).command_prefix == old(self).command_prefix,
            final(self).control_prefix == old(self).control_prefix,
            final(self).delimiter == old(self).delimiter,
            final(self).fh_active == old(self).fh_active,
    {
        let mut taken: Vec<Node> = Vec::new();
        std::mem::swap(&mut taken, &mut self.nodes);
        let ghost old_labels = self.labels@;
        let lab = Label { nodes: taken };
        let ghost lab_g = lab;
        assert(lab_g == Label { nodes: old(self).nodes });
        self.labels.push(lab);
        proof {
            let ls = self.labels@;
            assert(ls == old_labels.push(lab_g));
            lemma_flat_push(old_labels, lab_g);
            assert(self.all_nodes() =~= old(self).all_nodes());
            assert forall|k: int| 0 <= k < ls.len() implies (#[trigger] ls[k]).nodes@.len() > 0
                && nodes_ok(ls[k].nodes@, self.bytes()) by {
                if k < ls.len() - 1 {
                    assert(ls[k] == old_labels[k]);
                }
            }
        }
    }

    /// Everything but the position and the diagnostics is unchanged.
    spec fn frame(&self, o: Parser<'a>) -> bool {
        &&& self.input == o.input
        &&& self.tables == o.tables
        &&& self.toks == o.toks
        &&& self.labels == o.labels
        &&& self.nodes == o.nodes
        &&& self.in_label == o.in_label
        &&& self.mode == o.mode
        &&& self.fh_active == o.fh_active
        &&& self.command_prefix == o.command_prefix
        &&& self.control_prefix == o.control_prefix
        &&& self.delimiter == o.delimiter
    }

    /// The parser's state as plain values.
    spec fn pview(&self) -> ParseState {
        ParseState {
            toks: token_view(self.toks@),
            pos: self.pos as int,
            diags: diags_view(self.diags@),
            labels: labels_view(self.labels@),
            nodes: nodes_view(self.nodes@),
            in_label: self.in_label,
            mode: mode_view(self.mode),
            fh_active: self.fh_active,
            command_prefix: self.command_prefix,
            control_prefix: self.control_prefix,
            delimiter: self.delimiter,
        }
    }

    /// The text of token `k` is the input between its offsets.
    proof fn lemma_tok_text(&self, k: int)
        requires
            self.wf_core(),
            0 <= k < self.toks@.len(),
        ensures
            self.toks@[k].text@ == tok_text(self.bytes(), token_view(self.toks@), k),
    {
        encode_utf8_decode_utf8(self.toks@[k].text@);
    }

    spec fn rest_start(&self, hl: int) -> int {
        rest_start(self.bytes(), self.pview(), hl)
    }

    spec fn code_rest(&self, hl: int) -> Seq<char> {
        code_rest(self.bytes(), self.pview(), hl)
    }

    spec fn prefix_arg_end(&self, hl: int) -> int {
        prefix_arg_end(self.bytes(), self.pview(), hl)
    }

    spec fn prefix_arg(&self, hl: int) -> Option<char> {
        prefix_arg(self.bytes(), self.pview(), hl)
    }

    spec fn code_scan(&self, code: Seq<char>) -> (int, Seq<char>, Seq<DiagView>) {
        code_scan(self.bytes(), opt_tables(self.tables), self.pview(), code)
    }

    spec fn command_stop(&self, code: Seq<char>) -> int {
        command_stop(self.bytes(), opt_tables(self.tables), self.pview(), code)
    }

    spec fn command_raw(&self, code: Seq<char>, hl: int) -> Seq<char> {
        command_raw(self.bytes(), opt_tables(self.tables), self.pview(), code, hl)
    }

    spec fn command_scan_diags(&self, code: Seq<char>) -> Seq<DiagView> {
        command_scan_diags(self.bytes(), opt_tables(self.tables), self.pview(), code)
    }

    spec fn command_span(&self, code: Seq<char>, hl: int, leader_start: int) -> Span {
        command_span(self.bytes(), opt_tables(self.tables), self.pview(), code, hl, leader_start)
    }

    spec fn command_comment(&self, code: Seq<char>, hl: int) -> Option<Seq<char>> {
        command_comment(self.bytes(), opt_tables(self.tables), self.pview(), code, hl)
    }

    spec fn command_args_raw(&self, code: Seq<char>, hl: int) -> Seq<char> {
        command_args_raw(self.bytes(), opt_tables(self.tables), self.pview(), code, hl)
    }

    spec fn comment_start(&self, code: Seq<char>, hl: int, leader_start: int) -> int {
        comment_start(self.bytes(), opt_tables(self.tables), self.pview(), code, hl, leader_start)
    }

    spec fn comment_nodes(&self, code: Seq<char>, hl: int, leader_start: int) -> Seq<NodeView> {
        comment_nodes(self.bytes(), opt_tables(self.tables), self.pview(), code, hl, leader_start)
    }

    spec fn command_spacing_diag(&self, code: Seq<char>, hl: int, leader_start: int) -> Seq<DiagView> {
        command_spacing_diag(self.bytes(), opt_tables(self.tables), self.pview(), code, hl, leader_start)
    }

    /// After `^XA` (from state `o`): a label left open was closed, and a
    /// new one holds this command alone.
    spec fn opened_label(&self, o: Parser<'a>, code: Seq<char>, span: Span) -> bool {
        &&& self.in_label
        &&& !self.fh_active
        &&& self.mode is Normal
        &&& self.labels@ == (if o.in_label {
            o.labels@.push(Label { nodes: o.nodes })
        } else {
            o.labels@
        })
        &&& self.nodes@.len() > 0
        &&& self.nodes@.drop_last() == (if o.in_label {
            Seq::<Node>::empty()
        } else {
            o.nodes@
        })
        &&& bare_command(self.nodes@.last(), code, span)
    }

    /// After `^XZ` (from state `o`, in normal mode): the label, ended by
    /// this command, was closed.
    spec fn closed_label(&self, o: Parser<'a>, code: Seq<char>, span: Span) -> bool {
        &&& !self.in_label
        &&& self.fh_active == o.fh_active
        &&& self.mode is Normal
        &&& self.nodes@.len() == 0
        &&& self.labels@.len() == o.labels@.len() + 1
        &&& self.labels@.drop_last() == o.labels@
        &&& self.labels@.last().nodes@.len() > 0
        &&& self.labels@.last().nodes@.drop_last() == o.nodes@
        &&& bare_command(self.labels@.last().nodes@.last(), code, span)
    }

    /// After any other command (from state `o`): the command node with its
    /// argument slots was added, the hex-escape flag follows the tables,
    /// and field-data or raw-data mode begins where the tables say so.
    spec fn emitted(&self, o: Parser<'a>, code: Seq<char>, raw: Seq<char>, span: Span) -> bool {
        let t = opt_tables(o.tables);
        &&& self.in_label == o.in_label
        &&& self.labels == o.labels
        &&& self.fh_active == fh_after(t, code, o.fh_active)
        &&& self.nodes@.len() == o.nodes@.len() + 1
        &&& self.nodes@.drop_last() == o.nodes@
        &&& command_node(
            self.nodes@.last(),
            code,
            command_args_view(t, o.delimiter, code, raw, field_data_of(t, code)),
            span,
        )
        &&& raw_payload_of(t, code) ==> (self.mode matches Mode::RawData { command, content_start } && command@
            == code && content_start == self.cur_off())
        &&& field_data_of(t, code) ==> self.mode == (Mode::FieldData {
            content_start: self.cur_off() as usize,
            hex_escape: self.fh_active,
        })
        &&& !raw_payload_of(t, code) && !field_data_of(t, code) ==> self.mode is Normal
    }

    /// Runs the state machine over all tokens, then closes what is still
    /// open at the end of the input.
    fn parse(self) -> (r: ParseResult)
        requires
            self.wf(),
        ensures
            parse_ok(self.input, r),
            (labels_view(r.ast.labels@), diags_view(r.diagnostics@)) == parse_finish(
                self.bytes(),
                parse_run(self.bytes(), opt_tables(self.tables), self.pview(), (2 * self.n() + 2) as nat),
            ),
    {
        let mut p = self;
        let ghost input = p.input;
        let ghost b = self.bytes();
        let ghost t = opt_tables(self.tables);
        let ghost whole = parse_run(b, t, self.pview(), (2 * self.n() + 2) as nat);
        let ghost mut fuel: nat = (2 * self.n() + 2) as nat;
        proof {
            p.lemma_cur_off_bounds();
        }
        while !p.at_end()
            invariant
                p.wf(),
                p.input == input,
                b == p.bytes(),
                t == opt_tables(p.tables),
                parse_run(b, t, p.pview(), fuel) == whole,
                fuel > p.measure(),
                p.measure() >= 0,
            decreases p.measure(),
        {
            let ghost q = p;
            match p.mode {
                Mode::Normal => p.parse_normal(),
                Mode::FieldData { .. } => p.parse_field_data(),
                Mode::RawData { .. } => p.parse_raw_data(),
            }
            proof {
                p.lemma_cur_off_bounds();
                assert(p.pview() == parse_step(b, t, q.pview()));
                fuel = (fuel - 1) as nat;
            }
        }
        proof {
            assert(parse_run(b, t, p.pview(), fuel) == p.pview());
        }
        let ghost fin = p.pview();
        let n = byte_len(p.input);
        proof {
            is_char_boundary_start_end_of_seq(p.bytes());
        }
        let mut mode = Mode::Normal;
        std::mem::swap(&mut mode, &mut p.mode);
        match mode {
            Mode::RawData { command, content_start } => {
                let span = Span::new(content_start, n);
                let msg = msg3("unterminated raw data for ", command.as_str(), " at end of input");
                let d = Diagnostic::new(PARSER_MISSING_FIELD_SEPARATOR, Severity::Error, msg, Some(span))
                    .with_context(fs_context(Some(command.as_str()), "range.end"));
                let ghost dg = d;
                p.push_diag(d);
                proof {
                    assert(diags_view(p.diags@) =~= fin.diags.push(diag_view(dg)));
                }
                if content_start < n {
                    let data = p.slice_string(content_start, n);
                    proof {
                        encode_utf8_decode_utf8(data@);
                    }
                    let ghost nodes0 = p.nodes@;
                    p.push_node(Node::RawData { command, data: Some(data), span });
                    proof {
                        lemma_nodes_view_push(nodes0, p.nodes@.last());
                        assert(p.nodes@ =~= nodes0.push(p.nodes@.last()));
                    }
                }
            },
            Mode::FieldData { content_start, hex_escape } => {
                let span = Span::new(content_start, n);
                if content_start < n {
                    let content = p.slice_string(content_start, n);
                    proof {
                        encode_utf8_decode_utf8(content@);
                    }
                    let ghost nodes0 = p.nodes@;
                    p.push_node(Node::FieldData { content, hex_escaped: hex_escape, span });
                    proof {
                        lemma_nodes_view_push(nodes0, p.nodes@.last());
                        assert(p.nodes@ =~= nodes0.push(p.nodes@.last()));
                    }
                }
                let d = Diagnostic::new(
                    PARSER_MISSING_FIELD_SEPARATOR,
                    Severity::Error,
                    owned("missing field separator (^FS) before end of input"),
                    Some(span),
                ).with_context(fs_context(None, "range.end"));
                let ghost dg = d;
                p.push_diag(d);
                proof {
                    assert(diags_view(p.diags@) =~= fin.diags.push(diag_view(dg)));
                }
            },
            Mode::Normal => {},
        }
        let ghost nodes1 = nodes_view(p.nodes@);
        let ghost diags1 = diags_view(p.diags@);
        proof {
            let (en, ed) = match fin.mode {
                ModeView::RawData { command, content_start: cs } => {
                    let span = Span { start: cs as usize, end: n as usize };
                    (
                        if cs < n {
                            fin.nodes.push(
                                NodeView::RawData { command, data: Some(decode_utf8(b.subrange(cs, n as int))), span },
                            )
                        } else {
                            fin.nodes
                        },
                        fin.diags.push(
                            (
                                PARSER_MISSING_FIELD_SEPARATOR@,
                                Severity::Error,
                                "unterminated raw data for "@ + command + " at end of input"@,
                                Some(span),
                                Some(spec_fs_context(Some(command), "range.end"@)),
                            ),
                        ),
                    )
                },
                ModeView::FieldData { content_start: cs, hex_escape: hx } => {
                    let span = Span { start: cs as usize, end: n as usize };
                    (
                        field_content(b, fin.nodes, cs, n as int, hx),
                        fin.diags.push(
                            (
                                PARSER_MISSING_FIELD_SEPARATOR@,
                                Severity::Error,
                                "missing field separator (^FS) before end of input"@,
                                Some(span),
                                Some(spec_fs_context(None, "range.end"@)),
                            ),
                        ),
                    )
                },
                ModeView::Normal => (fin.nodes, fin.diags),
            };
            assert(nodes1 == en);
            assert(diags1 == ed);
        }
        let ghost labels0 = p.labels@;
        let ghost nodes_before = p.nodes;
        if p.in_label {
            let d = Diagnostic::new(
                PARSER_MISSING_TERMINATOR,
                Severity::Error,
                owned("missing terminator (^XZ)"),
                Some(Span::new(n, n)),
            ).with_context(xz_context());
            let ghost dg = d;
            p.push_diag(d);
            proof {
                assert(diags_view(p.diags@) =~= diags1.push(diag_view(dg)));
            }
            p.close_label();
            proof {
                lemma_labels_view_push(labels0, Label { nodes: nodes_before });
            }
        } else if p.nodes.len() > 0 {
            p.close_label();
            proof {
                lemma_labels_view_push(labels0, Label { nodes: nodes_before });
            }
        }
        let ghost diags2 = diags_view(p.diags@);
        if p.labels.len() == 0 {
            let span = if n == 0 {
                Span::empty(0)
            } else {
                Span::new(0, n)
            };
            let d = Diagnostic::new(PARSER_NO_LABELS, Severity::Info, owned("no labels detected"), Some(span));
            let ghost dg = d;
            p.push_diag(d);
            proof {
                assert(diags_view(p.diags@) =~= diags2.push(diag_view(dg)));
            }
        }
        ParseResult { ast: Ast { labels: p.labels }, diagnostics: p.diags }
    }

    /// One step in normal mode: a command, skipped whitespace, or a run of
    /// stray content reported once.
    fn parse_normal(&mut self)
        requires
            old(self).wf(),
            old(self).mode is Normal,
            old(self).pos < old(self).toks@.len(),
        ensures
            final(self).wf(),
            final(self).input == old(self).input,
            final(self).tables == old(self).tables,
            final(self).measure() < old(self).measure(),
            final(self).pview() == normal_step(old(self).bytes(), opt_tables(old(self).tables), old(self).pview()),
    {
        let kind = self.toks[self.pos].kind;
        match kind {
            TokKind::Leader => self.parse_command(),
            TokKind::Whitespace | TokKind::Newline => {
                proof {
                    self.lemma_advance((self.pos + 1) as usize);
                }
                self.pos = self.pos + 1;
            },
            _ => if self.starts_comment() {
                self.parse_comment();
            } else {
                let start = self.toks[self.pos].start;
                let mut end = self.toks[self.pos].end;
                self.pos = self.pos + 1;
                while !self.at_end() && (self.toks[self.pos].kind == TokKind::Value
                    || self.toks[self.pos].kind == TokKind::Comma)
                    invariant
                        self.wf(),
                        self.frame(*old(self)),
                        self.diags == old(self).diags,
                        old(self).pos < self.pos <= self.toks@.len(),
                        start == old(self).toks@[old(self).pos as int].start,
                        start <= end <= self.n(),
                        end == self.toks@[self.pos - 1].end,
                        forall|k: int| old(self).pos < k < self.pos ==> (#[trigger] self.toks@[k].kind is Value
                            || self.toks@[k].kind is Comma),
                    decreases self.toks@.len() - self.pos,
                {
                    proof {
                        assert(self.toks@[old(self).pos as int].start < self.toks@[self.pos as int].start);
                    }
                    end = self.toks[self.pos].end;
                    self.pos = self.pos + 1;
                }
                proof {
                    lemma_stray_end_at(token_view(self.toks@), old(self).pos + 1, self.pos as int);
                }
                proof {
                    old(self).lemma_advance(self.pos);
                }
                let d = Diagnostic::new(
                    PARSER_STRAY_CONTENT,
                    Severity::Warn,
                    owned("stray content outside of command context"),
                    Some(Span::new(start, end)),
                );
                let ghost dg = d;
                self.push_diag(d);
                proof {
                    let ps = normal_step(old(self).bytes(), opt_tables(old(self).tables), old(self).pview());
                    let pv = self.pview();
                    assert(pv.diags =~= ps.diags);
                    assert(pv == ps);
                }
            },
        }
    }

    /// A `;` comment: the rest of its line becomes a trivia node.
    fn parse_comment(&mut self)
        requires
            old(self).wf(),
            old(self).mode is Normal,
            old(self).pos < old(self).toks@.len(),
            comment_head(old(self).bytes(), token_view(old(self).toks@), old(self).pos as int),
        ensures
            final(self).wf(),
            final(self).input == old(self).input,
            final(self).tables == old(self).tables,
            final(self).measure() < old(self).measure(),
            final(self).pview() == normal_step(old(self).bytes(), opt_tables(old(self).tables), old(self).pview()),
    {
        let start = self.toks[self.pos].start;
        let mut end = self.toks[self.pos].end;
        proof {
            assert(self.toks@[self.pos as int].start < self.toks@[self.pos as int].end);
        }
        self.pos = self.pos + 1;
        while !self.at_end() && self.toks[self.pos].kind != TokKind::Newline
            invariant
                self.wf_core(),
                self.frame(*old(self)),
                self.diags == old(self).diags,
                old(self).pos < self.pos <= self.toks@.len(),
                start == old(self).toks@[old(self).pos as int].start,
                start < end <= self.n(),
                end == self.toks@[self.pos - 1].end,
                forall|k: int| old(self).pos <= k < self.pos ==> !(#[trigger] self.toks@[k].kind is Newline),
                ordered_from(self.toks@, old(self).pos as int),
            decreases self.toks@.len() - self.pos,
        {
            proof {
                assert(self.toks@[old(self).pos as int].start < self.toks@[self.pos as int].start);
                assert(self.toks@[self.pos as int].start < self.toks@[self.pos as int].end);
                assert(self.toks@[self.pos - 1].end <= self.toks@[self.pos as int].start);
            }
            end = self.toks[self.pos].end;
            self.pos = self.pos + 1;
        }
        proof {
            lemma_next_newline_at(token_view(self.toks@), old(self).pos as int, self.pos as int);
            old(self).lemma_advance(self.pos);
            if self.pos < self.toks@.len() {
                assert(self.toks@[self.pos - 1].end <= self.toks@[self.pos as int].start);
            }
        }
        let text = self.slice_string(start, end);
        proof {
            encode_utf8_decode_utf8(text@);
        }
        let nd = Node::Trivia { text, span: Span::new(start, end) };
        let ghost nd_g = nd;
        let ghost before = self.all_nodes();
        let ghost nodes0 = self.nodes@;
        self.push_node(nd);
        proof {
            lemma_order_push(before, nd_g, start as int);
            lemma_ends_by_push(before, nd_g, start as int, self.cur_off());
            lemma_nodes_view_push(nodes0, nd_g);
            let ps = normal_step(old(self).bytes(), opt_tables(old(self).tables), old(self).pview());
            let pv = self.pview();
            assert(pv.nodes == ps.nodes);
            assert(pv == ps);
        }
    }

    /// Parses the command whose leader is at the current token.
    fn parse_command(&mut self)
        requires
            old(self).wf(),
            old(self).mode is Normal,
            old(self).pos < old(self).toks@.len(),
        ensures
            final(self).wf(),
            final(self).input == old(self).input,
            final(self).tables == old(self).tables,
            final(self).measure() < old(self).measure(),
            final(self).pview() == command_step(old(self).bytes(), opt_tables(old(self).tables), old(self).pview()),
    {
        let ghost o = *self;
        let ghost t = opt_tables(self.tables);
        proof {
            self.lemma_tok_text(self.pos as int);
        }
        let leader_start = self.toks[self.pos].start;
        let leader_end = self.toks[self.pos].end;
        let leader_text = self.toks[self.pos].text;
        let canonical = match first_char(leader_text) {
            Some(c) => if c == self.command_prefix {
                '^'
            } else {
                '~'
            },
            None => '~',
        };
        self.pos = self.pos + 1;
        if self.at_end() || self.toks[self.pos].kind != TokKind::Value {
            let d = Diagnostic::new(
                PARSER_INVALID_COMMAND,
                Severity::Error,
                owned("invalid command: expected command code after leader"),
                Some(Span::new(leader_start, leader_end)),
            ).with_context(command_context(leader_text));
            let ghost dg = d;
            self.push_diag(d);
            self.skip_to_next_leader();
            proof {
                old(self).lemma_advance(self.pos);
                let ps = command_step(o.bytes(), t, o.pview());
                let pv = self.pview();
                assert(diag_view(dg) == leader_diag(
                    "invalid command: expected command code after leader"@,
                    Span { start: leader_start, end: leader_end },
                    leader_text@,
                ));
                assert(pv.diags =~= ps.diags);
                assert(pv == ps);
            }
            return;
        }
        let code_tok_start = self.toks[self.pos].start;
        proof {
            assert(leader_start < code_tok_start);
            self.lemma_cur_off_bounds();
        }
        let head = recognize_opcode(self.tables, canonical, self.input.as_bytes(), code_tok_start);
        if head.len() == 0 {
            let span_end = Self::next_char_boundary(self.input, code_tok_start + 1);
            let d = Diagnostic::new(
                PARSER_INVALID_COMMAND,
                Severity::Error,
                owned("missing command code after leader"),
                Some(Span::new(leader_start, span_end)),
            ).with_context(command_context(leader_text));
            let ghost dg = d;
            self.push_diag(d);
            self.skip_to_next_leader();
            proof {
                old(self).lemma_advance(self.pos);
                let ps = command_step(o.bytes(), t, o.pview());
                let pv = self.pview();
                assert(pv.diags =~= ps.diags);
                assert(pv == ps);
            }
            return;
        }
        let hl = utf8_len_all(&head);
        let mut code_chars: Vec<char> = Vec::new();
        code_chars.push(canonical);
        extend_chars(&mut code_chars, &head);
        let code = string_from_chars(&code_chars);
        assert(code@[0] == canonical);
        proof {
            assert(code@ =~= seq![canonical] + head@);
            assert(self.pview() == (ParseState { pos: o.pos + 1, ..o.pview() }));
        }
        if head.len() == 2 && head[0] == 'C' && (head[1] == 'C' || head[1] == 'T' || head[1] == 'D') {
            self.change_prefix(code, head[1], hl, leader_start, code_tok_start);
        } else {
            self.finish_command(code, hl, leader_start);
        }
    }

    /// `^CC`/`^CT`/`^CD` (or with `~`): the single character after the code
    /// becomes the command prefix, the control prefix or the delimiter (when
    /// it is ASCII), and the rest of the input is tokenized again.
    #[verifier::spinoff_prover]
    #[verifier::rlimit(80)]
    fn change_prefix(&mut self, code: String, which: char, hl: usize, leader_start: usize, code_tok_start: usize)
        requires
            old(self).wf(),
            old(self).mode is Normal,
            code@.len() >= 2 && (code@[0] == '^' || code@[0] == '~'),
            leader_start < code_tok_start < old(self).n(),
            old(self).pos < old(self).toks@.len(),
            old(self).toks@[old(self).pos as int].start == code_tok_start,
            ends_by(old(self).all_nodes(), leader_start as int),
        ensures
            final(self).wf(),
            final(self).input == old(self).input,
            final(self).tables == old(self).tables,
            final(self).mode is Normal,
            final(self).cur_off() > leader_start,
            final(self).labels == old(self).labels,
            final(self).in_label == old(self).in_label,
            final(self).fh_active == old(self).fh_active,
            ({
                let arg = old(self).prefix_arg(hl as int);
                let span = Span { start: leader_start, end: old(self).prefix_arg_end(hl as int) as usize };
                &&& final(self).command_prefix == prefix_update(old(self).command_prefix, arg, which == 'C')
                &&& final(self).control_prefix == prefix_update(old(self).control_prefix, arg, which == 'T')
                &&& final(self).delimiter == prefix_update(old(self).delimiter, arg, which != 'C' && which != 'T')
                &&& final(self).nodes@.len() == old(self).nodes@.len() + 1
                &&& final(self).nodes@.drop_last() == old(self).nodes@
                &&& command_node(final(self).nodes@.last(), code@, prefix_args_view(arg), span)
                &&& diags_view(final(self).diags@) == diags_view(old(self).diags@) + non_ascii_diag(code@, arg, span)
            }),
            ({
                let arg_end = old(self).prefix_arg_end(hl as int);
                &&& old(self).pos <= final(self).pos
                &&& final(self).toks@.take(final(self).pos as int) == old(self).toks@.take(final(self).pos as int)
                &&& forall|k: int| old(self).pos <= k < final(self).pos ==> (#[trigger] old(self).toks@[k]).start < arg_end
                &&& final(self).pos < old(self).toks@.len() ==> old(self).toks@[final(self).pos as int].start >= arg_end
                &&& arg_end < old(self).n() ==> token_view(final(self).toks@.skip(final(self).pos as int)) == shift_tokens(
                    tokens_from(
                        old(self).bytes().subrange(arg_end, old(self).n()),
                        0,
                        ascii_byte(final(self).command_prefix),
                        ascii_byte(final(self).control_prefix),
                        ascii_byte(final(self).delimiter),
                    ),
                    arg_end,
                )
                &&& arg_end >= old(self).n() ==> final(self).toks == old(self).toks
            }),
            final(self).pview() == prefix_step(old(self).bytes(), old(self).pview(), code@, which, hl as int, leader_start as int),
    {
        let ghost o = *self;
        let ghost code_v = code@;
        let n = byte_len(self.input);
        let x = if hl <= n - code_tok_start {
            code_tok_start + hl
        } else {
            n
        };
        let rem_start = Self::next_char_boundary(self.input, x);
        let arg_end = if rem_start < n {
            Self::next_char_boundary(self.input, rem_start + 1)
        } else {
            rem_start
        };
        let arg_char = if rem_start < n {
            let arg_text = byte_slice(self.input, rem_start, arg_end);
            proof {
                encode_utf8_decode_utf8(arg_text@);
            }
            first_char(arg_text)
        } else {
            None
        };
        proof {
            assert(rem_start == o.rest_start(hl as int));
            assert(arg_end == o.prefix_arg_end(hl as int));
            assert(arg_char == o.prefix_arg(hl as int));
        }
        let cmd_span = Span::new(leader_start, arg_end);
        let ghost dv0 = diags_view(self.diags@);
        let mut args: Vec<ArgSlot> = Vec::new();
        if let Some(ch) = arg_char {
            args.push(ArgSlot { key: Some(owned("x")), presence: Presence::Value, value: Some(char_string(ch)) });
            if (ch as u32) >= 128 {
                let mut msg = msg2(code.as_str(), " argument must be an ASCII character, got '");
                push_char(&mut msg, ch);
                push_char(&mut msg, '\'');
                let d = Diagnostic::new(PARSER_NON_ASCII_ARG, Severity::Error, msg, Some(cmd_span))
                    .with_context(command_context(code.as_str()));
                let ghost dg = d;
                self.push_diag(d);
                assert(diag_view(dg).2 =~= code@ + " argument must be an ASCII character, got '"@ + seq![ch, '\'']);
                assert(diags_view(self.diags@) =~= dv0 + non_ascii_diag(code@, arg_char, cmd_span));
            } else if which == 'C' {
                self.command_prefix = ch;
            } else if which == 'T' {
                self.control_prefix = ch;
            } else {
                self.delimiter = ch;
            }
        }
        let ghost cp1 = self.command_prefix;
        let ghost ctp1 = self.control_prefix;
        let ghost d1 = self.delimiter;
        proof {
            assert(slots_view(args@) =~= prefix_args_view(arg_char));
            if !(arg_char matches Some(ch) && (ch as u32) >= 128) {
                assert(diags_view(self.diags@) =~= dv0 + non_ascii_diag(code@, arg_char, cmd_span));
            }
        }
        let cmd = Node::Command { code, args, span: cmd_span };
        let ghost cmd_g = cmd;
        let ghost before = self.all_nodes();
        self.push_node(cmd);
        proof {
            assert(self.nodes@.drop_last() =~= o.nodes@);
        }
        let ghost all = self.all_nodes();
        proof {
            is_char_boundary_start_end_of_seq(self.bytes());
            assert forall|k: int| 0 <= k < self.pos implies (#[trigger] self.toks@[k]).start < arg_end by {
                assert(self.toks@[k].start < self.toks@[self.pos as int].start);
            }
            lemma_order_push(before, cmd_g, leader_start as int);
            assert forall|k: int| 0 <= k < all.len() implies (#[trigger] all[k]).spec_span().end <= arg_end by {
                if k < before.len() {
                    assert(all[k] == before[k]);
                }
            }
        }
        while self.pos < self.toks.len() && self.toks[self.pos].start < arg_end
            invariant
                self.wf_core(),
                self.nodes@.len() > 0,
                self.mode is Normal,
                self.input == old(self).input,
                self.tables == old(self).tables,
                self.all_nodes() == all,
                self.toks@ == old(self).toks@,
                self.pos >= old(self).pos,
                arg_end <= self.n(),
                is_char_boundary(self.bytes(), arg_end as int),
                forall|k: int| 0 <= k < self.pos ==> (#[trigger] self.toks@[k]).start < arg_end,
                self.toks == o.toks,
                self.labels == o.labels,
                self.in_label == o.in_label,
                self.fh_active == o.fh_active,
                self.command_prefix == cp1,
                self.control_prefix == ctp1,
                self.delimiter == d1,
                self.nodes@.len() == o.nodes@.len() + 1,
                self.nodes@.drop_last() == o.nodes@,
                command_node(self.nodes@.last(), code_v, prefix_args_view(arg_char), cmd_span),
                diags_view(self.diags@) == dv0 + non_ascii_diag(code_v, arg_char, cmd_span),
            decreases self.toks@.len() - self.pos,
        {
            self.pos = self.pos + 1;
        }
        proof {
            lemma_first_from_at(token_view(o.toks@), o.pos as int, arg_end as int, self.pos as int);
            lemma_nodes_view_last(self.nodes@);
        }
        if arg_end < n {
            let remaining = byte_slice(self.input, arg_end, n);
            let p = self.pos;
            self.toks.truncate(p);
            let new_toks = tokenize_with_config(remaining, self.command_prefix, self.control_prefix, self.delimiter);
            let ghost nt = new_toks@;
            let mut i: usize = 0;
            while i < new_toks.len()
                invariant
                    valid_utf8(self.bytes()),
                    is_ascii_char(self.command_prefix),
                    is_ascii_char(self.control_prefix),
                    is_ascii_char(self.delimiter),
                    opt_tables_wf(opt_tables(self.tables)),
                    nodes_ok(self.nodes@, self.bytes()),
                    labels_ok(self.labels@, self.bytes()),
                    diags_ok(self.diags@, self.n()),
                    self.nodes@.len() > 0,
                    self.mode is Normal,
                    self.input == old(self).input,
                    self.tables == old(self).tables,
                    self.pos == p,
                    self.all_nodes() == all,
                    nt == new_toks@,
                    i <= nt.len(),
                    n == self.n(),
                    arg_end < n,
                    is_char_boundary(self.bytes(), arg_end as int),
                    remaining.spec_bytes() == self.bytes().subrange(arg_end as int, n as int),
                    texts_match(remaining, nt),
                    tokens_ordered(nt),
                    self.toks@.len() == p + i,
                    texts_match(self.input, self.toks@),
                    tokens_nonempty(self.toks@),
                    starts_increasing(self.toks@),
                    forall|k: int| 0 <= k < p ==> (#[trigger] self.toks@[k]).start < arg_end,
                    forall|k: int|
                        p <= k < p + i ==> (#[trigger] self.toks@[k]).start == arg_end + nt[k - p].start
                            && self.toks@[k].end == arg_end + nt[k - p].end && self.toks@[k].kind == nt[k
                            - p].kind,
                    forall|k: int| 0 <= k < p ==> (#[trigger] self.toks@[k]) == o.toks@[k],
                    self.labels == o.labels,
                    self.in_label == o.in_label,
                    self.fh_active == o.fh_active,
                    self.command_prefix == cp1,
                    self.control_prefix == ctp1,
                    self.delimiter == d1,
                    self.nodes@.len() == o.nodes@.len() + 1,
                    self.nodes@.drop_last() == o.nodes@,
                    command_node(self.nodes@.last(), code_v, prefix_args_view(arg_char), cmd_span),
                    diags_view(self.diags@) == dv0 + non_ascii_diag(code_v, arg_char, cmd_span),
                    p <= o.toks@.len(),
                decreases nt.len() - i,
            {
                let t_kind = new_toks[i].kind;
                let t_start = new_toks[i].start;
                let t_end = new_toks[i].end;
                let abs_start = arg_end + t_start;
                let abs_end = arg_end + t_end;
                proof {
                    assert(nt[i as int].start < nt[i as int].end);
                    lemma_boundary_of_suffix(self.bytes(), arg_end as int, t_start as int);
                    lemma_boundary_of_suffix(self.bytes(), arg_end as int, t_end as int);
                }
                let text = byte_slice(self.input, abs_start, abs_end);
                let ghost old_toks = self.toks@;
                self.toks.push(Token { kind: t_kind, text, start: abs_start, end: abs_end });
                proof {
                    let ts = self.toks@;
                    assert forall|k: int| 0 <= k < ts.len() implies {
                        &&& (#[trigger] ts[k]).start <= ts[k].end <= self.n()
                        &&& is_char_boundary(self.bytes(), ts[k].start as int)
                        &&& is_char_boundary(self.bytes(), ts[k].end as int)
                        &&& ts[k].text.spec_bytes() == self.bytes().subrange(ts[k].start as int, ts[k].end as int)
                    } by {
                        if k < ts.len() - 1 {
                            assert(ts[k] == old_toks[k]);
                        }
                    }
                    assert forall|k: int| 0 <= k < ts.len() implies (#[trigger] ts[k]).start < ts[k].end by {
                        if k < ts.len() - 1 {
                            assert(ts[k] == old_toks[k]);
                        }
                    }
                    assert forall|k: int, l: int| 0 <= k < l < ts.len() implies (#[trigger] ts[k]).start
                        < (#[trigger] ts[l]).start by {
                        if l < ts.len() - 1 {
                            assert(ts[k] == old_toks[k] && ts[l] == old_toks[l]);
                        } else if k < p {
                            assert(ts[k] == old_toks[k]);
                        } else {
                            assert(ts[k] == old_toks[k]);
                            assert(nt[k - p].start < nt[k - p].end);
                            assert(nt[k - p].end <= nt[i as int].start);
                        }
                    }
                    assert forall|k: int| p <= k < p + i + 1 implies (#[trigger] ts[k]).start == arg_end
                        + nt[k - p].start && ts[k].end == arg_end + nt[k - p].end && ts[k].kind == nt[k
                        - p].kind by {
                        if k < ts.len() - 1 {
                            assert(ts[k] == old_toks[k]);
                        }
                    }
                    assert forall|k: int| 0 <= k < p implies (#[trigger] ts[k]).start < arg_end by {
                        assert(ts[k] == old_toks[k]);
                    }
                    assert forall|k: int| 0 <= k < p implies (#[trigger] ts[k]) == o.toks@[k] by {
                        assert(ts[k] == old_toks[k]);
                    }
                }
                i = i + 1;
            }
            proof {
                if p < self.toks@.len() {
                    assert(self.toks@[p as int].start == arg_end + nt[0].start);
                }
                let ts = self.toks@;
                assert forall|k: int, l: int| p <= k < l < ts.len() implies (#[trigger] ts[k]).end
                    <= (#[trigger] ts[l]).start by {
                    assert(nt[k - p].end <= nt[l - p].start);
                }
                assert(ts.take(p as int) =~= o.toks@.take(p as int));
                assert(token_view(ts.skip(p as int)) =~= shift_tokens(token_view(nt), arg_end as int));
                assert(token_view(ts) =~= token_view(o.toks@).take(p as int) + shift_tokens(token_view(nt), arg_end as int));
            }
        } else {
            proof {
                if self.pos < self.toks@.len() {
                    let k = self.pos as int;
                    assert(self.toks@[k].start < self.toks@[k].end);
                }
            }
        }
        proof {
            let ps = prefix_step(o.bytes(), o.pview(), code_v, which, hl as int, leader_start as int);
            let pv = self.pview();
            assert(pv.toks == ps.toks);
            assert(pv.pos == ps.pos);
            assert(pv.diags == ps.diags);
            assert(pv.labels == ps.labels);
            assert(pv.nodes == ps.nodes);
            assert(pv.mode == ps.mode);
            assert(pv.command_prefix == ps.command_prefix);
            assert(pv.control_prefix == ps.control_prefix);
            assert(pv.delimiter == ps.delimiter);
            assert(pv == ps);
        }
    }

    /// Reads tokens into `raw` up to the next leader; a newline ends the
    /// run too, and is consumed when `consume_newline` is set.
    fn collect_line(&mut self, raw: &mut Vec<char>, consume_newline: bool)
        requires
            old(self).wf(),
            old(self).mode is Normal,
        ensures
            final(self).wf(),
            final(self).frame(*old(self)),
            final(self).diags == old(self).diags,
            old(self).pos <= final(self).pos <= final(self).toks@.len(),
            final(self).pos == line_stop(old(self).bytes(), token_view(old(self).toks@), old(self).pos as int, consume_newline),
            final(raw)@ == old(raw)@ + token_texts(
                old(self).bytes(),
                token_view(old(self).toks@),
                old(self).pos as int,
                line_end(old(self).bytes(), token_view(old(self).toks@), old(self).pos as int),
            ),
    {
        let ghost toks = token_view(self.toks@);
        let ghost b = self.bytes();
        let ghost p0 = self.pos as int;
        let ghost e = line_end(b, toks, p0);
        let mut done = false;
        proof {
            lemma_line_end_bounds(b, toks, p0);
        }
        while !done && !self.at_end()
            invariant
                self.wf(),
                self.frame(*old(self)),
                self.diags == old(self).diags,
                old(self).pos <= self.pos <= self.toks@.len(),
                toks == token_view(self.toks@),
                b == self.bytes(),
                p0 == old(self).pos,
                e == line_end(b, toks, p0),
                !done ==> self.pos <= e && line_end(b, toks, self.pos as int) == e && raw@ == old(raw)@
                    + token_texts(b, toks, p0, self.pos as int),
                done ==> self.pos == line_stop(b, toks, p0, consume_newline) && raw@ == old(raw)@
                    + token_texts(b, toks, p0, e),
            decreases self.toks@.len() - self.pos, if done {
                0int
            } else {
                1int
            },
        {
            let kind = self.toks[self.pos].kind;
            proof {
                self.lemma_tok_text(self.pos as int);
            }
            if kind == TokKind::Leader {
                done = true;
            } else if kind == TokKind::Newline {
                if consume_newline {
                    self.pos = self.pos + 1;
                }
                done = true;
            } else if self.starts_trailing_comment() {
                done = true;
            } else {
                let piece = chars_of(self.toks[self.pos].text);
                extend_chars(raw, &piece);
                proof {
                    self.lemma_tok_text(self.pos as int);
                    assert(token_texts(b, toks, p0, self.pos + 1) == token_texts(b, toks, p0, self.pos as int)
                        + tok_text(b, toks, self.pos as int));
                    assert(raw@ =~= old(raw)@ + token_texts(b, toks, p0, self.pos + 1));
                    lemma_line_end_bounds(b, toks, self.pos + 1);
                }
                self.pos = self.pos + 1;
            }
        }
    }

    /// Whether the current token is a `;` value (a comment).
    fn starts_comment(&self) -> (r: bool)
        requires
            self.wf_core(),
            self.pos < self.toks@.len(),
        ensures
            r == comment_head(self.bytes(), token_view(self.toks@), self.pos as int),
    {
        proof {
            self.lemma_tok_text(self.pos as int);
        }
        self.toks[self.pos].kind == TokKind::Value && first_char(self.toks[self.pos].text) == Some(';')
    }

    /// Whether the current token begins a comment after a command's
    /// arguments: a `;` value that follows whitespace.
    fn starts_trailing_comment(&self) -> (r: bool)
        requires
            self.wf_core(),
            self.pos < self.toks@.len(),
        ensures
            r == trailing_comment(self.bytes(), token_view(self.toks@), self.pos as int),
    {
        self.pos > 0 && self.toks[self.pos - 1].kind == TokKind::Whitespace && self.starts_comment()
    }

    /// In free-form text, reports each bare leader that does not start a
    /// real command and goes on collecting the text after it.
    #[verifier::spinoff_prover]
    #[verifier::rlimit(60)]
    fn scan_free_text(&mut self, code: &str, raw: &mut Vec<char>)
        requires
            old(self).wf(),
            old(self).mode is Normal,
        ensures
            final(self).wf(),
            final(self).frame(*old(self)),
            old(self).pos <= final(self).pos <= final(self).toks@.len(),
            ({
                let r = free_text_scan(
                    old(self).bytes(),
                    opt_tables(old(self).tables),
                    token_view(old(self).toks@),
                    old(self).command_prefix,
                    code@,
                    old(self).pos as int,
                );
                &&& final(self).pos == r.0
                &&& final(raw)@ == old(raw)@ + r.1
                &&& diags_view(final(self).diags@) == diags_view(old(self).diags@) + r.2
            }),
    {
        let ghost toks = token_view(self.toks@);
        let ghost t = opt_tables(self.tables);
        let ghost b = self.bytes();
        let ghost cp = self.command_prefix;
        let ghost whole = free_text_scan(b, t, toks, cp, code@, self.pos as int);
        let mut done = false;
        proof {
            assert(diags_view(self.diags@) + seq![] =~= diags_view(self.diags@));
            assert(raw@ + seq![] =~= raw@);
        }
        while !done && !self.at_end()
            invariant
                self.wf(),
                self.frame(*old(self)),
                self.mode is Normal,
                old(self).pos <= self.pos <= self.toks@.len(),
                toks == token_view(self.toks@),
                t == opt_tables(self.tables),
                b == self.bytes(),
                cp == self.command_prefix,
                whole == free_text_scan(b, t, toks, cp, code@, old(self).pos as int),
                !done ==> ({
                    let r = free_text_scan(b, t, toks, cp, code@, self.pos as int);
                    &&& r.0 == whole.0
                    &&& raw@ + r.1 == old(raw)@ + whole.1
                    &&& diags_view(self.diags@) + r.2 == diags_view(old(self).diags@) + whole.2
                }),
                done ==> self.pos == whole.0 && raw@ == old(raw)@ + whole.1 && diags_view(self.diags@)
                    == diags_view(old(self).diags@) + whole.2,
            decreases self.toks@.len() - self.pos, if done {
                0int
            } else {
                1int
            },
        {
            let ghost here = free_text_scan(b, t, toks, cp, code@, self.pos as int);
            if self.toks[self.pos].kind != TokKind::Leader {
                proof {
                    assert(here == (self.pos as int, Seq::<char>::empty(), Seq::<DiagView>::empty()));
                    assert(raw@ + here.1 =~= raw@);
                    assert(diags_view(self.diags@) + here.2 =~= diags_view(self.diags@));
                }
                done = true;
            } else {
                let leader_start = self.toks[self.pos].start;
                let leader_end = self.toks[self.pos].end;
                let canonical = match first_char(self.toks[self.pos].text) {
                    Some(c) => if c == self.command_prefix {
                        '^'
                    } else {
                        '~'
                    },
                    None => '~',
                };
                let has_head = if self.pos + 1 < self.toks.len() && self.toks[self.pos + 1].kind
                    == TokKind::Value {
                    let at = self.toks[self.pos + 1].start;
                    let h = recognize_opcode(self.tables, canonical, self.input.as_bytes(), at);
                    h.len() > 0
                } else {
                    false
                };
                proof {
                    self.lemma_tok_text(self.pos as int);
                }
                assert(canonical == canonical_leader(tok_text(b, toks, self.pos as int), cp));
                assert(has_head == heads_command(b, t, toks, cp, self.pos as int));
                if has_head {
                    proof {
                        assert(raw@ + here.1 =~= raw@);
                        assert(diags_view(self.diags@) + here.2 =~= diags_view(self.diags@));
                    }
                    done = true;
                } else {
                    let mut msg = owned("reserved command leader '");
                    push_char(&mut msg, canonical);
                    append_str(&mut msg, "' inside ");
                    append_str(&mut msg, code);
                    append_str(&mut msg, " free-form text; avoid raw '^'/'~' in free-form content");
                    let d = Diagnostic::new(
                        PARSER_INVALID_COMMAND,
                        Severity::Error,
                        msg,
                        Some(Span::new(leader_start, leader_end)),
                    ).with_context(command_context(code));
                    let ghost p = self.pos as int;
                    let ghost e = line_end(b, toks, p + 1);
                    let ghost dv0 = diags_view(self.diags@);
                    let ghost raw0 = raw@;
                    proof {
                        lemma_line_end_bounds(b, toks, p + 1);
                        assert(diag_view(d) == free_text_diag(
                            code@,
                            canonical,
                            Span { start: toks[p].1 as usize, end: toks[p].2 as usize },
                        ));
                    }
                    let ghost dg = d;
                    self.push_diag(d);
                    self.pos = self.pos + 1;
                    self.collect_line(raw, false);
                    proof {
                        let r = free_text_scan(b, t, toks, cp, code@, e);
                        assert(here == (r.0, token_texts(b, toks, p + 1, e) + r.1, seq![diag_view(dg)] + r.2));
                        assert(self.pos == e);
                        assert(raw@ == raw0 + token_texts(b, toks, p + 1, e));
                        assert(raw@ + r.1 =~= raw0 + here.1);
                        assert(diags_view(self.diags@) =~= dv0.push(diag_view(dg)));
                        assert(diags_view(self.diags@) + r.2 =~= dv0 + here.2);
                    }
                }
            }
        }
    }

    /// The rest of a command after its code: collects the argument text,
    /// reports unknown codes and spacing problems, handles `^XA`/`^XZ`,
    /// builds the arguments and enters field-data or raw-data mode.
    #[verifier::spinoff_prover]
    #[verifier::rlimit(100)]
    fn finish_command(&mut self, code: String, hl: usize, leader_start: usize)
        requires
            old(self).wf(),
            old(self).mode is Normal,
            old(self).pos < old(self).toks@.len(),
            old(self).toks@[old(self).pos as int].kind is Value,
            leader_start < old(self).toks@[old(self).pos as int].start,
            code@.len() >= 2 && (code@[0] == '^' || code@[0] == '~'),
            ends_by(old(self).all_nodes(), leader_start as int),
        ensures
            final(self).wf(),
            final(self).input == old(self).input,
            final(self).tables == old(self).tables,
            final(self).measure() < 2 * (old(self).n() - leader_start),
            final(self).toks == old(self).toks,
            final(self).pos == old(self).command_stop(code@),
            final(self).command_prefix == old(self).command_prefix,
            final(self).control_prefix == old(self).control_prefix,
            final(self).delimiter == old(self).delimiter,
            final(self).pview() == finish_step(
                old(self).bytes(),
                opt_tables(old(self).tables),
                old(self).pview(),
                code@,
                hl as int,
                leader_start as int,
            ),
    {
        let ghost o = *self;
        let ghost t = opt_tables(self.tables);
        let ghost dv0 = diags_view(self.diags@);
        let ghost code_v = code@;
        let n = byte_len(self.input);
        let code_tok_start = self.toks[self.pos].start;
        let rem_end = self.toks[self.pos].end;
        let x = if hl <= n - code_tok_start {
            code_tok_start + hl
        } else {
            n
        };
        let rem_start = Self::next_char_boundary(self.input, x);
        let mut raw: Vec<char> = Vec::new();
        if rem_start < rem_end {
            let rem = byte_slice(self.input, rem_start, rem_end);
            proof {
                encode_utf8_decode_utf8(rem@);
                assert(decode_utf8(self.bytes().subrange(rem_start as int, rem_end as int)) == rem@);
            }
            let blocked = match first_char(rem) {
                Some(c) => c == self.command_prefix || c == self.control_prefix,
                None => false,
            };
            if !blocked {
                raw = chars_of(rem);
            }
        }
        assert(raw@ == o.code_rest(hl as int));
        self.pos = self.pos + 1;
        self.collect_line(&mut raw, true);
        let text_end = if self.toks[self.pos - 1].kind == TokKind::Newline {
            self.toks[self.pos - 2].end
        } else {
            self.toks[self.pos - 1].end
        };
        proof {
            let tv = token_view(o.toks@);
            let e = line_end(o.bytes(), tv, o.pos + 1);
            lemma_line_end_bounds(o.bytes(), tv, o.pos + 1);
            if self.pos - 1 > o.pos && self.pos - 1 < e {
                lemma_line_end_tokens(o.bytes(), tv, o.pos + 1, self.pos - 1);
            }
            if self.pos == e && e - 1 > o.pos {
                lemma_line_end_tokens(o.bytes(), tv, o.pos + 1, e - 1);
            }
            assert(text_end == line_text_end(o.bytes(), o.pview()));
        }
        let ghost m = *self;
        let entry = lookup_command(self.tables, code.as_str());
        let is_field_data = match entry {
            Some(ce) => ce.field_data,
            None => false,
        };
        let raw_payload = !is_field_data && match entry {
            Some(ce) => ce.raw_payload,
            None => false,
        };
        let sig = effective_signature(self.tables, code.as_str());
        let is_free_text = !is_field_data && !raw_payload && match sig {
            Some(sg) => byte_len(sg.joiner.as_str()) == 0,
            None => false,
        };
        proof {
            assert(is_field_data == field_data_of(t, code@));
            assert(raw_payload == raw_payload_of(t, code@));
            if let Some(sg) = sig {
                lemma_encode_utf8_empty(sg.joiner@);
                assert(spec_signature(t, code@) == Some(*sg));
            }
            assert(is_free_text == free_text_of(t, code@));
        }
        if is_free_text {
            self.scan_free_text(code.as_str(), &mut raw);
        }
        proof {
            if is_free_text {
                assert(m.pos == line_stop(o.bytes(), token_view(o.toks@), o.pos + 1, true));
                assert(self.pos == o.code_scan(code@).0);
                assert(raw@ == o.command_raw(code@, hl as int));
            } else {
                assert(raw@ =~= o.command_raw(code@, hl as int));
                assert(diags_view(self.diags@) =~= dv0 + o.command_scan_diags(code@));
            }
            assert(self.pos == o.command_stop(code@));
            assert(diags_view(self.diags@) == dv0 + o.command_scan_diags(code@));
        }
        let command_end = self.toks[self.pos - 1].end;
        proof {
            let k = self.pos - 1;
            if k > old(self).pos {
                assert(self.toks@[old(self).pos as int].start < self.toks@[k].start);
            }
            assert(self.toks@[k].start < self.toks@[k].end);
            old(self).lemma_advance(self.pos);
        }
        proof {
            let k = self.pos - 1;
            if self.pos < self.toks@.len() {
                assert(old(self).toks@[k].end <= old(self).toks@[self.pos as int].start);
            }
            assert(command_end <= self.cur_off());
        }
        let (raw, comment) = if !is_field_data && !raw_payload && !is_free_text {
            split_comment(raw)
        } else {
            (raw, None)
        };
        proof {
            assert(self.pview().toks == o.pview().toks);
            assert(raw@ == o.command_args_raw(code@, hl as int));
            assert(match comment {
                Some(c) => o.command_comment(code@, hl as int) == Some(c@),
                None => o.command_comment(code@, hl as int) is None,
            });
            assert(command_end == crate::parse_spec::command_end(o.bytes(), t, o.pview(), code@));
        }
        proof {
            let tv = token_view(o.toks@);
            let e = line_end(o.bytes(), tv, o.pos + 1);
            lemma_line_end_bounds(o.bytes(), tv, o.pos + 1);
            let k = e - 1;
            let q = self.pos - 1;
            assert(o.toks@[o.pos as int].start < o.toks@[o.pos as int].end);
            if k > o.pos {
                assert(o.toks@[o.pos as int].end <= o.toks@[k].start);
                assert(o.toks@[k].start < o.toks@[k].end);
            }
            if q > k {
                assert(o.toks@[k].end <= o.toks@[q].start);
                assert(o.toks@[q].start < o.toks@[q].end);
            }
            assert(leader_start <= text_end <= command_end);
        }
        let cstart = match &comment {
            Some(c) => match utf8_len_capped(c, text_end - leader_start) {
                Some(l) => text_end - l,
                None => leader_start,
            },
            None => command_end,
        };
        assert(cstart == o.comment_start(code@, hl as int, leader_start as int));
        let cmd_span = Span::new(leader_start, cstart);
        assert(cmd_span == o.command_span(code@, hl as int, leader_start as int));
        proof {
            if self.pos < self.toks@.len() {
                assert(command_end <= self.toks@[self.pos as int].start);
            }
        }
        self.close_command(
            code,
            raw,
            comment,
            cmd_span,
            text_end,
            command_end,
            entry,
            sig,
            is_field_data,
            raw_payload,
            leader_start,
            Ghost(o),
            Ghost(hl as int),
        );
    }

    /// The end of a command once its text is read: the unknown-code
    /// warning, then `^XA`, `^XZ` or any other command, then its trailing
    /// comment. `o` is the state before the command's text was read.
    #[verifier::spinoff_prover]
    #[verifier::rlimit(100)]
    fn close_command(
        &mut self,
        code: String,
        raw: Vec<char>,
        comment: Option<Vec<char>>,
        cmd_span: Span,
        text_end: usize,
        command_end: usize,
        entry: Option<&'a CommandEntry>,
        sig: Option<&'a Signature>,
        is_field_data: bool,
        raw_payload: bool,
        leader_start: usize,
        Ghost(o): Ghost<Parser<'a>>,
        Ghost(hl): Ghost<int>,
    )
        requires
            old(self).wf(),
            old(self).mode is Normal,
            o.mode is Normal,
            old(self).input == o.input,
            old(self).tables == o.tables,
            old(self).toks == o.toks,
            old(self).labels == o.labels,
            old(self).nodes == o.nodes,
            old(self).in_label == o.in_label,
            old(self).fh_active == o.fh_active,
            old(self).command_prefix == o.command_prefix,
            old(self).control_prefix == o.control_prefix,
            old(self).delimiter == o.delimiter,
            old(self).pos == o.command_stop(code@),
            diags_view(old(self).diags@) == diags_view(o.diags@) + o.command_scan_diags(code@),
            cmd_span == o.command_span(code@, hl, leader_start as int),
            command_end == crate::parse_spec::command_end(o.bytes(), opt_tables(o.tables), o.pview(), code@),
            raw@ == o.command_args_raw(code@, hl),
            match comment {
                Some(c) => o.command_comment(code@, hl) == Some(c@),
                None => o.command_comment(code@, hl) is None,
            },
            text_end == line_text_end(o.bytes(), o.pview()),
            cmd_span.start == leader_start,
            leader_start <= cmd_span.end <= command_end <= old(self).cur_off(),
            leader_start <= text_end <= command_end,
            comment is Some ==> cmd_span.end <= text_end,
            comment is None ==> cmd_span.end == command_end,
            old(self).cur_off() > leader_start,
            command_end <= old(self).n(),
            ends_by(old(self).all_nodes(), leader_start as int),
            entry matches Some(e) ==> spec_lookup(opt_tables(o.tables), code@) == Some(*e),
            entry is None ==> spec_lookup(opt_tables(o.tables), code@) is None,
            sig matches Some(sg) ==> spec_signature(opt_tables(o.tables), code@) == Some(*sg),
            sig is None ==> spec_signature(opt_tables(o.tables), code@) is None,
            is_field_data == field_data_of(opt_tables(o.tables), code@),
            raw_payload == raw_payload_of(opt_tables(o.tables), code@),
            code@.len() >= 2 && (code@[0] == '^' || code@[0] == '~'),
        ensures
            final(self).wf(),
            final(self).input == old(self).input,
            final(self).tables == old(self).tables,
            final(self).measure() < 2 * (old(self).n() - leader_start),
            final(self).toks == old(self).toks,
            final(self).pos == old(self).pos,
            final(self).command_prefix == old(self).command_prefix,
            final(self).control_prefix == old(self).control_prefix,
            final(self).delimiter == old(self).delimiter,
            final(self).pview() == finish_step(
                o.bytes(),
                opt_tables(o.tables),
                o.pview(),
                code@,
                hl,
                leader_start as int,
            ),
    {
        let ghost t = opt_tables(self.tables);
        let ghost dv0 = diags_view(o.diags@);
        let ghost code_v = code@;
        let ghost cstart = cmd_span.end;
        let n = byte_len(self.input);
        proof {
            self.lemma_cur_off_bounds();
            assert(self.n() == n);
        }
        let ghost cn = o.comment_nodes(code@, hl, leader_start as int);
        assert(cn == match comment {
            Some(c) => seq![NodeView::Trivia { text: c@, span: Span { start: cstart, end: text_end } }],
            None => Seq::<NodeView>::empty(),
        });
        let unknown = match self.tables {
            Some(t) => !t.is_known_code(code.as_str()),
            None => false,
        };
        let ghost dv1 = diags_view(self.diags@);
        if unknown {
            let d = Diagnostic::new(
                PARSER_UNKNOWN_COMMAND,
                Severity::Warn,
                msg2("unknown command ", code.as_str()),
                Some(cmd_span),
            ).with_context(command_context(code.as_str()));
            let ghost dg = d;
            self.push_diag(d);
            assert(diags_view(self.diags@) =~= dv1 + unknown_command_diag(t, code@, cmd_span));
        } else {
            assert(diags_view(self.diags@) =~= dv1 + unknown_command_diag(t, code@, cmd_span));
        }
        let ghost dv2 = diags_view(self.diags@);
        proof {
            reveal_strlit("^XA");
            reveal_strlit("^XZ");
            assert("^XA"@[2] != "^XZ"@[2]);
            assert("^XA"@ != "^XZ"@);
        }
        if str_eq(code.as_str(), "^XA") {
            self.start_label(code, cmd_span);
            assert(diags_view(self.diags@) =~= dv2 + Seq::<DiagView>::empty());
            assert(self.opened_label(o, code_v, cmd_span));
            let ghost mid = self.pview();
            proof {
                let ps = finish_step(o.bytes(), t, o.pview(), code_v, hl, leader_start as int);
                lemma_nodes_view_last(self.nodes@);
                lemma_bare_command_view(self.nodes@.last(), code_v, cmd_span);
                lemma_labels_view_push(o.labels@, Label { nodes: o.nodes });
                assert(nodes_view(Seq::<Node>::empty()) =~= Seq::<NodeView>::empty());
                assert(mid.labels == ps.labels);
                assert(mid.nodes + cn == ps.nodes);
                assert(mid.diags == ps.diags);
                assert(ParseState { nodes: mid.nodes + cn, ..mid } == ps);
            }
            self.push_comment(comment, cmd_span.end, text_end);
            return;
        }
        if str_eq(code.as_str(), "^XZ") {
            self.end_label(code, cmd_span);
            assert(diags_view(self.diags@) =~= dv2 + Seq::<DiagView>::empty());
            assert(self.closed_label(o, code_v, cmd_span));
            let ghost mid = self.pview();
            proof {
                let ps = finish_step(o.bytes(), t, o.pview(), code_v, hl, leader_start as int);
                let ls = self.labels@;
                let last = ls.last();
                assert(ls =~= ls.drop_last().push(last));
                lemma_labels_view_push(ls.drop_last(), last);
                lemma_nodes_view_last(last.nodes@);
                lemma_bare_command_view(last.nodes@.last(), code_v, cmd_span);
                assert(nodes_view(self.nodes@) =~= Seq::<NodeView>::empty());
                assert(mid.labels == ps.labels);
                assert(mid.nodes + cn =~= ps.nodes);
                assert(mid.diags == ps.diags);
                assert(ParseState { nodes: mid.nodes + cn, ..mid } == ps);
            }
            self.push_comment(comment, cmd_span.end, text_end);
            return;
        }
        proof {
            assert(policy_of(
                match sig {
                    Some(sg) => Some(*sg),
                    None => None,
                },
            ) == policy_of(spec_signature(t, code@)));
        }
        let ghost raw_v = raw@;
        self.emit_command(code, raw, cmd_span, entry, sig, is_field_data, raw_payload, leader_start);
        let ghost mid = self.pview();
        proof {
            assert(raw_v == o.command_args_raw(code_v, hl));
            assert(self.emitted(o, code_v, raw_v, cmd_span));
            let ps = finish_step(o.bytes(), t, o.pview(), code_v, hl, leader_start as int);
            lemma_nodes_view_last(self.nodes@);
            assert(mid.nodes + cn == ps.nodes);
            assert(mid.diags == ps.diags);
            assert(self.pos == o.command_stop(code_v));
            assert(self.cur_off() == off_at(token_view(o.toks@), self.pos as int, o.n()));
            assert(mid.mode == ps.mode);
            assert(ParseState { nodes: mid.nodes + cn, ..mid } == ps);
            if comment is Some {
                assert(cn.len() > 0);
                assert(!is_field_data && !raw_payload);
            }
        }
        self.push_comment(comment, cmd_span.end, text_end);
    }

    /// Adds the trivia node of a trailing comment over `start..end`, if
    /// there is one.
    fn push_comment(&mut self, comment: Option<Vec<char>>, start: usize, end: usize)
        requires
            old(self).wf(),
            comment is Some ==> old(self).mode is Normal,
            comment is Some ==> start <= end <= old(self).cur_off(),
            comment is Some ==> ends_by(old(self).all_nodes(), start as int),
        ensures
            final(self).wf(),
            final(self).input == old(self).input,
            final(self).tables == old(self).tables,
            final(self).measure() == old(self).measure(),
            final(self).toks == old(self).toks,
            final(self).pos == old(self).pos,
            final(self).mode == old(self).mode,
            final(self).command_prefix == old(self).command_prefix,
            final(self).control_prefix == old(self).control_prefix,
            final(self).delimiter == old(self).delimiter,
            final(self).pview() == (ParseState {
                nodes: old(self).pview().nodes + match comment {
                    Some(c) => seq![NodeView::Trivia { text: c@, span: Span { start, end } }],
                    None => Seq::<NodeView>::empty(),
                },
                ..old(self).pview()
            }),
    {
        proof {
            self.lemma_cur_off_bounds();
        }
        match comment {
            Some(c) => {
                let text = string_from_chars(&c);
                let nd = Node::Trivia { text, span: Span::new(start, end) };
                let ghost nd_g = nd;
                let ghost before = self.all_nodes();
                let ghost nodes0 = self.nodes@;
                self.push_node(nd);
                proof {
                    lemma_order_push(before, nd_g, start as int);
                    lemma_ends_by_push(before, nd_g, start as int, self.cur_off());
                    lemma_nodes_view_push(nodes0, nd_g);
                    assert(node_view(nd_g) == (NodeView::Trivia { text: c@, span: Span { start, end } }));
                    assert(self.pview().nodes =~= old(self).pview().nodes + seq![
                        NodeView::Trivia { text: c@, span: Span { start, end } },
                    ]);
                }
            },
            None => {
                assert(self.pview().nodes + Seq::<NodeView>::empty() =~= self.pview().nodes);
            },
        }
    }

    /// `^XA`: closes a label left open and starts a new one with this command.
    fn start_label(&mut self, code: String, cmd_span: Span)
        requires
            old(self).wf(),
            old(self).mode is Normal,
            span_ok(cmd_span, old(self).n()),
            ends_by(old(self).all_nodes(), cmd_span.start as int),
            cmd_span.end <= old(self).cur_off(),
            code@.len() >= 2 && (code@[0] == '^' || code@[0] == '~'),
        ensures
            final(self).wf(),
            final(self).input == old(self).input,
            final(self).tables == old(self).tables,
            final(self).toks == old(self).toks,
            final(self).pos == old(self).pos,
            final(self).mode is Normal,
            final(self).in_label,
            !final(self).fh_active,
            final(self).diags == old(self).diags,
            ends_by(final(self).all_nodes(), cmd_span.end as int),
            final(self).command_prefix == old(self).command_prefix,
            final(self).control_prefix == old(self).control_prefix,
            final(self).delimiter == old(self).delimiter,
            final(self).labels@ == (if old(self).in_label {
                old(self).labels@.push(Label { nodes: old(self).nodes })
            } else {
                old(self).labels@
            }),
            final(self).nodes@.len() > 0,
            final(self).nodes@.drop_last() == (if old(self).in_label {
                Seq::<Node>::empty()
            } else {
                old(self).nodes@
            }),
            bare_command(final(self).nodes@.last(), code@, cmd_span),
    {
        if self.in_label {
            self.close_label();
        }
        self.in_label = true;
        self.fh_active = false;
        let cmd = Node::Command { code, args: Vec::new(), span: cmd_span };
        let ghost cmd_g = cmd;
        let ghost before = self.all_nodes();
        self.push_node(cmd);
        proof {
            lemma_order_push(before, cmd_g, cmd_span.start as int);
            lemma_ends_by_push(before, cmd_g, cmd_span.start as int, self.cur_off());
            lemma_ends_by_push(before, cmd_g, cmd_span.start as int, cmd_span.end as int);
            assert(self.nodes@.drop_last() =~= (if old(self).in_label {
                Seq::<Node>::empty()
            } else {
                old(self).nodes@
            }));
        }
    }

    /// `^XZ`: ends the field left open, if any, adds this command and closes
    /// the label.
    fn end_label(&mut self, code: String, cmd_span: Span)
        requires
            old(self).wf(),
            old(self).mode is Normal,
            span_ok(cmd_span, old(self).n()),
            ends_by(old(self).all_nodes(), cmd_span.start as int),
            cmd_span.end <= old(self).cur_off(),
            code@.len() >= 2 && (code@[0] == '^' || code@[0] == '~'),
        ensures
            final(self).wf(),
            final(self).input == old(self).input,
            final(self).tables == old(self).tables,
            final(self).toks == old(self).toks,
            final(self).pos == old(self).pos,
            final(self).mode is Normal,
            !final(self).in_label,
            ends_by(final(self).all_nodes(), cmd_span.end as int),
            final(self).fh_active == (if old(self).mode is FieldData {
                false
            } else {
                old(self).fh_active
            }),
            final(self).command_prefix == old(self).command_prefix,
            final(self).control_prefix == old(self).control_prefix,
            final(self).delimiter == old(self).delimiter,
            final(self).nodes@.len() == 0,
            final(self).labels@.len() == old(self).labels@.len() + 1,
            final(self).labels@.drop_last() == old(self).labels@,
            final(self).labels@.last().nodes@.len() > 0,
            final(self).labels@.last().nodes@.drop_last() == old(self).nodes@,
            bare_command(final(self).labels@.last().nodes@.last(), code@, cmd_span),
            diags_view(final(self).diags@) == (if old(self).mode is FieldData {
                diags_view(old(self).diags@).push(
                    (
                        PARSER_MISSING_FIELD_SEPARATOR@,
                        Severity::Error,
                        "missing field separator (^FS) before ^XZ"@,
                        Some(cmd_span),
                        Some(spec_fs_context(None, "range.start"@)),
                    ),
                )
            } else {
                diags_view(old(self).diags@)
            }),
    {
        if let Mode::FieldData { .. } = self.mode {
            let d = Diagnostic::new(
                PARSER_MISSING_FIELD_SEPARATOR,
                Severity::Error,
                owned("missing field separator (^FS) before ^XZ"),
                Some(cmd_span),
            ).with_context(fs_context(None, "range.start"));
            let ghost dg = d;
            self.push_diag(d);
            self.mode = Mode::Normal;
            self.fh_active = false;
            assert(diags_view(self.diags@) =~= diags_view(old(self).diags@).push(diag_view(dg)));
        } else {
            assert(diags_view(self.diags@) =~= diags_view(old(self).diags@));
        }
        let cmd = Node::Command { code, args: Vec::new(), span: cmd_span };
        let ghost cmd_g = cmd;
        let ghost before = self.all_nodes();
        self.push_node(cmd);
        proof {
            lemma_order_push(before, cmd_g, cmd_span.start as int);
            lemma_ends_by_push(before, cmd_g, cmd_span.start as int, self.cur_off());
            lemma_ends_by_push(before, cmd_g, cmd_span.start as int, cmd_span.end as int);
            assert(self.nodes@.drop_last() =~= old(self).nodes@);
        }
        self.close_label();
        self.in_label = false;
        proof {
            assert(self.labels@.drop_last() =~= old(self).labels@);
        }
    }

    /// The end of a command that is neither `^XA` nor `^XZ`: field and
    /// hex-escape tracking, the spacing policy, the arguments, the node and
    /// the mode that follows.
    #[verifier::spinoff_prover]
    #[verifier::rlimit(100)]
    fn emit_command(
        &mut self,
        code: String,
        raw: Vec<char>,
        cmd_span: Span,
        entry: Option<&'a CommandEntry>,
        sig: Option<&'a Signature>,
        is_field_data: bool,
        raw_payload: bool,
        leader_start: usize,
    )
        requires
            old(self).wf(),
            old(self).mode is Normal,
            old(self).cur_off() > leader_start,
            span_ok(cmd_span, old(self).n()),
            ends_by(old(self).all_nodes(), cmd_span.start as int),
            cmd_span.end <= old(self).cur_off(),
            code@.len() >= 2 && (code@[0] == '^' || code@[0] == '~'),
        ensures
            final(self).wf(),
            final(self).input == old(self).input,
            final(self).tables == old(self).tables,
            final(self).measure() < 2 * (old(self).n() - leader_start),
            final(self).toks == old(self).toks,
            final(self).pos == old(self).pos,
            final(self).labels == old(self).labels,
            final(self).in_label == old(self).in_label,
            ends_by(final(self).all_nodes(), cmd_span.end as int),
            final(self).command_prefix == old(self).command_prefix,
            final(self).control_prefix == old(self).control_prefix,
            final(self).delimiter == old(self).delimiter,
            final(self).fh_active == (if entry matches Some(ce) && ce.closes_field {
                false
            } else if entry matches Some(ce) && ce.hex_escape_modifier {
                true
            } else {
                old(self).fh_active
            }),
            final(self).nodes@.len() == old(self).nodes@.len() + 1,
            final(self).nodes@.drop_last() == old(self).nodes@,
            command_node(
                final(self).nodes@.last(),
                code@,
                command_args_view(opt_tables(old(self).tables), old(self).delimiter, code@, raw@, is_field_data),
                cmd_span,
            ),
            diags_view(final(self).diags@) == diags_view(old(self).diags@) + (if raw_payload {
                Seq::<DiagView>::empty()
            } else {
                spacing_diag(
                    code@,
                    raw@,
                    policy_of(
                        match sig {
                            Some(sg) => Some(*sg),
                            None => None,
                        },
                    ),
                    cmd_span,
                )
            }),
            raw_payload ==> (final(self).mode matches Mode::RawData { command, content_start } && command@
                == code@ && content_start == old(self).cur_off()),
            !raw_payload && is_field_data ==> final(self).mode == (Mode::FieldData {
                content_start: old(self).cur_off() as usize,
                hex_escape: final(self).fh_active,
            }),
            !raw_payload && !is_field_data ==> final(self).mode is Normal,
    {
        let n = byte_len(self.input);
        let ghost policy = policy_of(
            match sig {
                Some(sg) => Some(*sg),
                None => None,
            },
        );
        let ghost code_v = code@;
        let ghost raw_v = raw@;
        let ghost dv0 = diags_view(self.diags@);
        if let Some(ce) = entry {
            if ce.hex_escape_modifier {
                self.fh_active = true;
            }
        }
        if !raw_payload {
            let trimmed = trim_chars(&raw);
            if trimmed.len() > 0 {
                let starts_ws = raw.len() > 0 && char_is_ws(raw[0]);
                let policy_x = match sig {
                    Some(sg) => sg.spacing_policy,
                    None => SpacingPolicy::Forbid,
                };
                assert(policy_x == policy);
                if policy_x == SpacingPolicy::Forbid && starts_ws {
                    let d = Diagnostic::new(
                        PARSER_INVALID_COMMAND,
                        Severity::Error,
                        msg2(code.as_str(), " should not include a space between opcode and arguments"),
                        Some(cmd_span),
                    ).with_context(spacing_context(code.as_str(), "spacingPolicy=forbid"));
                    let ghost dg = d;
                    self.push_diag(d);
                    assert(diags_view(self.diags@) =~= dv0 + seq![diag_view(dg)]);
                } else if policy_x == SpacingPolicy::Require && !starts_ws {
                    let d = Diagnostic::new(
                        PARSER_INVALID_COMMAND,
                        Severity::Error,
                        msg2(code.as_str(), " expects a space between opcode and arguments"),
                        Some(cmd_span),
                    ).with_context(spacing_context(code.as_str(), "spacingPolicy=require"));
                    let ghost dg = d;
                    self.push_diag(d);
                    assert(diags_view(self.diags@) =~= dv0 + seq![diag_view(dg)]);
                } else {
                    assert(diags_view(self.diags@) =~= dv0 + spacing_diag(code_v, raw_v, policy, cmd_span));
                }
            } else {
                assert(diags_view(self.diags@) =~= dv0 + spacing_diag(code_v, raw_v, policy, cmd_span));
            }
        } else {
            assert(diags_view(self.diags@) =~= dv0 + Seq::<DiagView>::empty());
        }
        let args: Vec<ArgSlot> = if is_field_data {
            let mut v: Vec<ArgSlot> = Vec::new();
            if raw.len() > 0 {
                v.push(
                    ArgSlot {
                        key: Some(owned("data")),
                        presence: Presence::Value,
                        value: Some(string_from_chars(&raw)),
                    },
                );
            }
            proof {
                if raw@.len() > 0 {
                    assert(slots_view(v@) =~= seq![(Some("data"@), Presence::Value, Some(raw_v))]);
                } else {
                    assert(slots_view(v@) =~= Seq::<(Option<Seq<char>>, Presence, Option<Seq<char>>)>::empty());
                }
            }
            v
        } else {
            parse_args(self.tables, self.delimiter, code.as_str(), &raw)
        };
        assert(slots_view(args@) == command_args_view(
            opt_tables(self.tables),
            self.delimiter,
            code_v,
            raw_v,
            is_field_data,
        ));
        if let Some(ce) = entry {
            if ce.closes_field {
                self.fh_active = false;
            }
        }
        let content_start = if self.at_end() {
            n
        } else {
            self.toks[self.pos].start
        };
        proof {
            is_char_boundary_start_end_of_seq(self.bytes());
        }
        let command = if raw_payload {
            Some(owned(code.as_str()))
        } else {
            None
        };
        let node = Node::Command { code, args, span: cmd_span };
        let ghost nd = node;
        let ghost before = self.all_nodes();
        self.push_node(node);
        proof {
            lemma_ends_by_push(before, nd, cmd_span.start as int, cmd_span.end as int);
        }
        match command {
            Some(command) => {
                self.mode = Mode::RawData { command, content_start };
            },
            None => {
                if is_field_data {
                    self.mode = Mode::FieldData { content_start, hex_escape: self.fh_active };
                }
            },
        }
        assert(self.nodes@.drop_last() =~= old(self).nodes@);
    }

    /// One step in field-data mode: skips content up to the next leader,
    /// then ends the field at a field separator, reports a bare leader and
    /// goes on, or reports the command that interrupts the field.
    #[verifier::spinoff_prover]
    #[verifier::rlimit(100)]
    fn parse_field_data(&mut self)
        requires
            old(self).wf(),
            old(self).mode is FieldData,
            old(self).pos < old(self).toks@.len(),
        ensures
            final(self).wf(),
            final(self).input == old(self).input,
            final(self).tables == old(self).tables,
            final(self).measure() < old(self).measure(),
            final(self).pview() == field_step(old(self).bytes(), opt_tables(old(self).tables), old(self).pview()),
    {
        let ghost t = opt_tables(self.tables);
        let ghost b = self.bytes();
        let (content_start, hex_escape) = match self.mode {
            Mode::FieldData { content_start, hex_escape } => (content_start, hex_escape),
            _ => (0, false),
        };
        while !self.at_end() && self.toks[self.pos].kind != TokKind::Leader
            invariant
                self.wf(),
                self.frame(*old(self)),
                self.diags == old(self).diags,
                old(self).pos <= self.pos <= self.toks@.len(),
                forall|k: int| old(self).pos <= k < self.pos ==> !(#[trigger] self.toks@[k].kind is Leader),
            decreases self.toks@.len() - self.pos,
        {
            proof {
                self.lemma_mode_advance(self.pos + 1);
            }
            self.pos = self.pos + 1;
        }
        proof {
            lemma_next_leader_at(token_view(self.toks@), old(self).pos as int, self.pos as int);
        }
        if self.at_end() {
            proof {
                old(self).lemma_advance(self.pos);
                assert(self.pview() == field_step(b, t, old(self).pview()));
            }
            return;
        }
        proof {
            self.lemma_tok_text(self.pos as int);
        }
        let ghost p = self.pos as int;
        let ghost nodes0 = self.nodes@;
        let ghost dv0 = diags_view(self.diags@);
        proof {
            if self.pos > old(self).pos {
                old(self).lemma_advance(self.pos);
            }
        }
        let n = byte_len(self.input);
        let leader_start = self.toks[self.pos].start;
        let leader_end = self.toks[self.pos].end;
        let leader_char = match first_char(self.toks[self.pos].text) {
            Some(c) => c,
            None => '\0',
        };
        let next_is_value = self.pos + 1 < self.toks.len() && self.toks[self.pos + 1].kind == TokKind::Value;
        if leader_char == self.command_prefix && next_is_value {
            let at = self.toks[self.pos + 1].start;
            let head = recognize_opcode(self.tables, '^', self.input.as_bytes(), at);
            let mut cand: Vec<char> = Vec::new();
            cand.push('^');
            extend_chars(&mut cand, &head);
            let cand_str = string_from_chars(&cand);
            let closes = match lookup_command(self.tables, cand_str.as_str()) {
                Some(ce) => ce.closes_field,
                None => false,
            };
            assert(cand@ =~= seq!['^'] + head@);
            if closes {
                if content_start < leader_start {
                    let content = self.slice_string(content_start, leader_start);
                    proof {
                        encode_utf8_decode_utf8(content@);
                    }
                    self.push_node(
                        Node::FieldData {
                            content,
                            hex_escaped: hex_escape,
                            span: Span::new(content_start, leader_start),
                        },
                    );
                    proof {
                        lemma_nodes_view_push(nodes0, self.nodes@.last());
                        assert(self.nodes@ =~= nodes0.push(self.nodes@.last()));
                    }
                }
                self.mode = Mode::Normal;
                self.fh_active = false;
                proof {
                    let ps = field_step(b, t, old(self).pview());
                    let pv = self.pview();
                    assert(pv.nodes == ps.nodes);
                    assert(pv == ps);
                }
                return;
            }
        }
        let canonical = if leader_char == self.command_prefix {
            '^'
        } else {
            '~'
        };
        let mut interrupter = char_string(canonical);
        let mut has_head = false;
        if next_is_value {
            let at = self.toks[self.pos + 1].start;
            let head = recognize_opcode(self.tables, canonical, self.input.as_bytes(), at);
            if head.len() > 0 {
                append_str(&mut interrupter, string_from_chars(&head).as_str());
                has_head = true;
            }
        }
        let ghost head_g: Seq<char> = if next_is_value {
            spec_recognize(t, canonical, b, self.toks@[p + 1].start as int)
        } else {
            seq![]
        };
        assert(interrupter@ =~= seq![canonical] + head_g);
        assert(has_head == (head_g.len() > 0));
        if content_start < leader_start {
            let content = self.slice_string(content_start, leader_start);
            proof {
                encode_utf8_decode_utf8(content@);
            }
            self.push_node(
                Node::FieldData { content, hex_escaped: hex_escape, span: Span::new(content_start, leader_start) },
            );
            proof {
                lemma_nodes_view_push(nodes0, self.nodes@.last());
                assert(self.nodes@ =~= nodes0.push(self.nodes@.last()));
            }
        }
        assert(nodes_view(self.nodes@) == field_content(b, nodes_view(nodes0), content_start as int, leader_start as int, hex_escape));
        if !has_head {
            let msg = msg3(
                "reserved command leader '",
                interrupter.as_str(),
                "' encountered inside field data; use encoded text or remove the character",
            );
            let d = Diagnostic::new(
                PARSER_INVALID_COMMAND,
                Severity::Error,
                msg,
                Some(Span::new(leader_start, leader_end)),
            ).with_context(command_context(interrupter.as_str()));
            self.push_diag(d);
            let ghost dg = d;
            let ghost before = *self;
            self.pos = self.pos + 1;
            proof {
                before.lemma_advance(self.pos);
                is_char_boundary_start_end_of_seq(self.bytes());
            }
            let next_start = if self.at_end() {
                n
            } else {
                self.toks[self.pos].start
            };
            self.mode = Mode::FieldData { content_start: next_start, hex_escape };
            proof {
                let ps = field_step(b, t, old(self).pview());
                let pv = self.pview();
                assert(pv.diags =~= ps.diags);
                assert(pv.nodes == ps.nodes);
                assert(pv == ps);
            }
            return;
        }
        let msg = msg3("field data interrupted by ", interrupter.as_str(), " before ^FS");
        let d = Diagnostic::new(
            PARSER_FIELD_DATA_INTERRUPTED,
            Severity::Warn,
            msg,
            Some(Span::new(leader_start, leader_start + 1)),
        ).with_context(command_context(interrupter.as_str()));
        let ghost dg = d;
        self.push_diag(d);
        self.mode = Mode::Normal;
        self.fh_active = false;
        proof {
            let ps = field_step(b, t, old(self).pview());
            let pv = self.pview();
            assert(pv.diags =~= ps.diags);
            assert(pv.nodes == ps.nodes);
            assert(pv == ps);
        }
    }

    /// One step in raw-data mode: collects the payload up to the next
    /// leader and returns to normal mode; at the end of the input the mode
    /// stays open for the final clean-up.
    fn parse_raw_data(&mut self)
        requires
            old(self).wf(),
            old(self).mode is RawData,
            old(self).pos < old(self).toks@.len(),
        ensures
            final(self).wf(),
            final(self).input == old(self).input,
            final(self).tables == old(self).tables,
            final(self).measure() < old(self).measure(),
            final(self).pview() == raw_step(old(self).bytes(), old(self).pview()),
    {
        let mut m = Mode::Normal;
        std::mem::swap(&mut m, &mut self.mode);
        let (command, content_start) = match m {
            Mode::RawData { command, content_start } => (command, content_start),
            _ => (String::new(), 0),
        };
        let ghost s1 = *self;
        while !self.at_end() && self.toks[self.pos].kind != TokKind::Leader
            invariant
                self.wf(),
                self.frame(s1),
                self.diags == s1.diags,
                s1.pos <= self.pos <= self.toks@.len(),
                s1.pos == old(self).pos,
                forall|k: int| old(self).pos <= k < self.pos ==> !(#[trigger] self.toks@[k].kind is Leader),
            decreases self.toks@.len() - self.pos,
        {
            self.pos = self.pos + 1;
        }
        proof {
            if self.pos > old(self).pos {
                old(self).lemma_advance(self.pos);
            }
            is_char_boundary_start_end_of_seq(self.bytes());
            lemma_next_leader_at(token_view(self.toks@), old(self).pos as int, self.pos as int);
        }
        if !self.at_end() {
            let leader_start = self.toks[self.pos].start;
            proof {
                if self.pos > old(self).pos {
                    assert(old(self).toks@[old(self).pos as int].start < leader_start);
                }
            }
            let ghost nodes0 = self.nodes@;
            if content_start < leader_start {
                let data = self.slice_string(content_start, leader_start);
                proof {
                    encode_utf8_decode_utf8(data@);
                }
                self.push_node(
                    Node::RawData { command, data: Some(data), span: Span::new(content_start, leader_start) },
                );
                proof {
                    lemma_nodes_view_push(nodes0, self.nodes@.last());
                    assert(self.nodes@ =~= nodes0.push(self.nodes@.last()));
                }
            }
            proof {
                let ps = raw_step(old(self).bytes(), old(self).pview());
                let pv = self.pview();
                assert(pv.nodes == ps.nodes);
                assert(pv == ps);
            }
            return;
        }
        self.mode = Mode::RawData { command, content_start };
        proof {
            let ps = raw_step(old(self).bytes(), old(self).pview());
            assert(self.pview() == ps);
        }
    }

    /// Field data / raw data text between two offsets, as an owned string.
    fn slice_string(&self, start: usize, end: usize) -> (r: String)
        requires
            self.wf_core(),
            start <= end <= self.n(),
            is_char_boundary(self.bytes(), start as int),
            is_char_boundary(self.bytes(), end as int),
        ensures
            encode_utf8(r@) == self.bytes().subrange(start as int, end as int),
            r@.len() == 0 <==> start == end,
    {
        let s = byte_slice(self.input, start, end);
        let r = owned(s);
        proof {
            if r@.len() == 0 {
                assert(encode_utf8(r@) =~= Seq::<u8>::empty());
            }
            if start == end {
                encode_utf8_decode_utf8(r@);
                assert(encode_utf8(r@) =~= Seq::<u8>::empty());
                assert(decode_utf8(Seq::<u8>::empty()) =~= Seq::<char>::empty());
            }
        }
        r
    }
}

/// A context entry.
fn kv(k: &str, v: &str) -> (r: (String, String))
    ensures
        r.0@ == k@ && r.1@ == v@,
{
    (owned(k), owned(v))
}

/// The context of a "missing field separator" diagnostic (keys in sorted
/// order), with the offending command first when there is one.
fn fs_context(command: Option<&str>, position: &str) -> (r: Vec<(String, String)>)
    ensures
        ctx_view(r@) == spec_fs_context(
            match command {
                Some(cmd) => Some(cmd@),
                None => None,
            },
            position@,
        ),
{
    let mut c: Vec<(String, String)> = Vec::new();
    if let Some(cmd) = command {
        c.push(kv("command", cmd));
    }
    c.push(kv("expected", "^FS"));
    c.push(kv("suggested_edit.kind", "insert"));
    c.push(kv("suggested_edit.position", position));
    c.push(kv("suggested_edit.text", "^FS"));
    c.push(kv("suggested_edit.title", "Insert ^FS (field separator)"));
    proof {
        let e = spec_fs_context(
            match command {
                Some(cmd) => Some(cmd@),
                None => None,
            },
            position@,
        );
        assert(ctx_view(c@) =~= e);
    }
    c
}

/// The context of the "missing terminator" diagnostic (keys in sorted order).
fn xz_context() -> (r: Vec<(String, String)>)
    ensures
        ctx_view(r@) == spec_xz_context(),
{
    let mut c: Vec<(String, String)> = Vec::new();
    c.push(kv("expected", "^XZ"));
    c.push(kv("suggested_edit.kind", "insert"));
    c.push(kv("suggested_edit.position", "document.end"));
    c.push(kv("suggested_edit.text", "^XZ"));
    c.push(kv("suggested_edit.title", "Insert ^XZ (label terminator)"));
    assert(ctx_view(c@) =~= spec_xz_context());
    c
}

/// The context of a spacing-policy diagnostic.
fn spacing_context(command: &str, policy: &str) -> (r: Vec<(String, String)>)
    ensures
        ctx_view(r@) == seq![("command"@, command@), ("spacing"@, policy@)],
{
    let mut c: Vec<(String, String)> = Vec::new();
    c.push(kv("command", command));
    c.push(kv("spacing", policy));
    assert(ctx_view(c@) =~= seq![("command"@, command@), ("spacing"@, policy@)]);
    c
}

/// The context `command => value`.
fn command_context(v: &str) -> (r: Vec<(String, String)>)
    ensures
        ctx_view(r@) == seq![("command"@, v@)],
{
    let mut c: Vec<(String, String)> = Vec::new();
    c.push(kv("command", v));
    assert(ctx_view(c@) =~= seq![("command"@, v@)]);
    c
}

/// The first character of a string, if any.
fn first_char(s: &str) -> (r: Option<char>)
    ensures
        r == (if s@.len() > 0 {
            Some(s@[0])
        } else {
            None
        }),
{
    let v = chars_of(s);
    if v.len() > 0 {
        Some(v[0])
    } else {
        None
    }
}

/// A string is empty exactly when its encoding is.
proof fn lemma_encode_utf8_empty(s: Seq<char>)
    ensures
        (encode_utf8(s).len() == 0) == (s.len() == 0),
{
    if s.len() == 0 {
        assert(encode_utf8(s) =~= Seq::<u8>::empty());
    }
}

/// Encoding a sequence with one more character appends that character's
/// encoding.
proof fn lemma_encode_utf8_push(s: Seq<char>, c: char)
    ensures
        encode_utf8(s.push(c)) == encode_utf8(s) + encode_scalar(c as u32),
    decreases s.len(),
{
    if s.len() == 0 {
        assert(s.push(c).drop_first() =~= Seq::<char>::empty());
        assert(encode_utf8(Seq::<char>::empty()) =~= Seq::<u8>::empty());
        assert(s =~= Seq::<char>::empty());
        assert(encode_utf8(s.push(c)) =~= encode_utf8(s) + encode_scalar(c as u32));
    } else {
        assert(s.push(c).drop_first() =~= s.drop_first().push(c));
        lemma_encode_utf8_push(s.drop_first(), c);
        assert(s.push(c)[0] == s[0]);
        let a = encode_scalar(s[0] as u32);
        let b = encode_utf8(s.drop_first());
        assert(encode_utf8(s.push(c)) == a + (b + encode_scalar(c as u32)));
        assert(encode_utf8(s) == a + b);
        assert(encode_utf8(s.push(c)) =~= encode_utf8(s) + encode_scalar(c as u32));
    }
}

/// The number of bytes the UTF-8 encoding of `c` takes.
fn utf8_len(c: char) -> (r: usize)
    ensures
        r == encode_utf8(seq![c]).len(),
        1 <= r <= 4,
{
    proof {
        lemma_encode_utf8_push(Seq::<char>::empty(), c);
        assert(Seq::<char>::empty().push(c) =~= seq![c]);
        assert(encode_utf8(Seq::<char>::empty()) =~= Seq::<u8>::empty());
        char_is_scalar(c);
    }
    let u = c as u32;
    if u < 0x80 {
        1
    } else if u < 0x800 {
        2
    } else if u < 0x10000 {
        3
    } else {
        4
    }
}

/// The number of bytes the UTF-8 encoding of `v` takes.
fn utf8_len_all(v: &Vec<char>) -> (r: usize)
    requires
        v.len() <= 3,
    ensures
        r == encode_utf8(v@).len(),
        r <= 12,
{
    let mut total: usize = 0;
    let mut i: usize = 0;
    proof {
        assert(v@.subrange(0, 0) =~= Seq::<char>::empty());
    }
    while i < v.len()
        invariant
            i <= v.len() <= 3,
            total <= 4 * i,
            total == encode_utf8(v@.subrange(0, i as int)).len(),
        decreases v.len() - i,
    {
        let w = utf8_len(v[i]);
        proof {
            let c = v@[i as int];
            assert(v@.subrange(0, i + 1) =~= v@.subrange(0, i as int).push(c));
            lemma_encode_utf8_push(v@.subrange(0, i as int), c);
            lemma_encode_utf8_push(Seq::<char>::empty(), c);
            assert(Seq::<char>::empty().push(c) =~= seq![c]);
            assert(encode_utf8(Seq::<char>::empty()) =~= Seq::<u8>::empty());
        }
        total = total + w;
        i = i + 1;
    }
    assert(v@.subrange(0, i as int) =~= v@);
    total
}

/// Splits a command's text at its trailing comment (see [`comment_from`]):
/// the text before it, and the comment.
fn split_comment(raw: Vec<char>) -> (r: (Vec<char>, Option<Vec<char>>))
    ensures
        match comment_from(raw@, 1) {
            Some(i) => r.0@ == raw@.take(i) && (r.1 matches Some(c) && c@ == raw@.skip(i)),
            None => r.0@ == raw@ && r.1 is None,
        },
{
    let mut i: usize = 1;
    while i < raw.len()
        invariant
            1 <= i,
            comment_from(raw@, 1) == comment_from(raw@, i as int),
        decreases raw@.len() - i,
    {
        if raw[i] == ';' && char_is_ws(raw[i - 1]) {
            let head = chars_range(&raw, 0, i);
            let tail = chars_range(&raw, i, raw.len());
            assert(raw@.subrange(0, i as int) =~= raw@.take(i as int));
            assert(raw@.subrange(i as int, raw@.len() as int) =~= raw@.skip(i as int));
            return (head, Some(tail));
        }
        i = i + 1;
    }
    (raw, None)
}

/// A prefix of a sequence encodes to no more bytes than the sequence.
proof fn lemma_encode_utf8_prefix_len(v: Seq<char>, j: int)
    requires
        0 <= j <= v.len(),
    ensures
        encode_utf8(v.take(j)).len() <= encode_utf8(v).len(),
    decreases v.len() - j,
{
    if j < v.len() {
        lemma_encode_utf8_prefix_len(v, j + 1);
        assert(v.take(j + 1) =~= v.take(j).push(v[j]));
        lemma_encode_utf8_push(v.take(j), v[j]);
    } else {
        assert(v.take(j) =~= v);
    }
}

/// The number of bytes the UTF-8 encoding of `v` takes, when it is at most
/// `cap`.
fn utf8_len_capped(v: &Vec<char>, cap: usize) -> (r: Option<usize>)
    ensures
        match r {
            Some(l) => l == encode_utf8(v@).len() && l <= cap,
            None => encode_utf8(v@).len() > cap,
        },
{
    let mut total: usize = 0;
    let mut i: usize = 0;
    assert(v@.take(0) =~= Seq::<char>::empty());
    assert(encode_utf8(Seq::<char>::empty()) =~= Seq::<u8>::empty());
    while i < v.len()
        invariant
            i <= v.len(),
            total <= cap,
            total == encode_utf8(v@.take(i as int)).len(),
        decreases v.len() - i,
    {
        let w = utf8_len(v[i]);
        proof {
            let c = v@[i as int];
            assert(v@.take(i + 1) =~= v@.take(i as int).push(c));
            lemma_encode_utf8_push(v@.take(i as int), c);
            lemma_encode_utf8_push(Seq::<char>::empty(), c);
            assert(Seq::<char>::empty().push(c) =~= seq![c]);
            assert(encode_utf8(Seq::<char>::empty()) =~= Seq::<u8>::empty());
        }
        if w > cap - total {
            proof {
                lemma_encode_utf8_prefix_len(v@, i + 1);
            }
            return None;
        }
        total = total + w;
        i = i + 1;
    }
    assert(v@.take(i as int) =~= v@);
    Some(total)
}

/// Parses ZPL input without spec tables (heuristic opcode recognition).
pub fn parse_str(input: &str) -> (r: ParseResult)
    ensures
        parse_ok(input, r),
        labels_view(r.ast.labels@) == spec_parse(input, None).0,
        diags_view(r.diagnostics@) == spec_parse(input, None).1,
{
    parse_with_tables(input, None)
}

/// Parses ZPL input with optional spec tables for opcode recognition,
/// signatures and structural flags.
pub fn parse_with_tables(input: &str, tables: Option<&ParserTables>) -> (r: ParseResult)
    requires
        opt_tables_wf(opt_tables(tables)),
    ensures
        parse_ok(input, r),
        labels_view(r.ast.labels@) == spec_parse(input, opt_tables(tables)).0,
        diags_view(r.diagnostics@) == spec_parse(input, opt_tables(tables)).1,
{
    let p = Parser::new(input, tables);
    p.parse()
}

} // verus!
