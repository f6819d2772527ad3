//! ZPL emitter: turns an AST back into formatted ZPL text.
//!
//! Joiners, split-rule merging, trailing-argument trimming and structural
//! indentation come from the spec tables; field data and raw payloads are
//! written back verbatim.

use crate::ast::{ArgSlot, Ast, Label, Node, Presence};
use crate::diag::Span;
use crate::tables::{effective_signature, lookup_command, opt_tables, spec_lookup, spec_signature, ParserTables, Signature};
use crate::text::{chars_of, concat_all, extend_chars, join, str_eq, string_from_chars, trim, trim_chars};
use vstd::prelude::*;

verus! {

broadcast use vstd::seq::group_seq_axioms;

/// Indentation style for formatted output.
#[derive(Debug, Clone, Copy, PartialEq, Eq, Structural)]
pub enum Indent {
    /// No indentation (flat): conventional ZPL style.
    Flat,
    /// Two spaces for commands inside `^XA`/`^XZ`.
    Label,
    /// Label indentation plus two more spaces inside field blocks.
    Field,
}

impl Default for Indent {
    fn default() -> (i: Indent)
        ensures
            i == Indent::Flat,
    {
        Indent::Flat
    }
}

/// How the commands of a field block are laid out.
#[derive(Debug, Clone, Copy, PartialEq, Eq, Structural)]
pub enum Compaction {
    /// One command per line.
    Off,
    /// The commands of a field block (from the command that opens the
    /// field to the one that closes it) on one line.
    Field,
}

/// Where `;` comments go.
#[derive(Debug, Clone, Copy, PartialEq, Eq, Structural)]
pub enum CommentPlacement {
    /// A comment that follows a command goes at the end of that command's
    /// line.
    Inline,
    /// Every comment keeps a line of its own.
    Line,
}

/// Configuration of the emitter.
#[derive(Debug, Clone, Copy)]
pub struct EmitConfig {
    /// Indentation style.
    pub indent: Indent,
    /// Layout of field blocks.
    pub compaction: Compaction,
    /// Placement of comments.
    pub comment_placement: CommentPlacement,
}

impl Default for EmitConfig {
    fn default() -> (c: EmitConfig)
        ensures
            c.indent == Indent::Flat,
            c.compaction == Compaction::Off,
            c.comment_placement == CommentPlacement::Inline,
    {
        EmitConfig { indent: Indent::Flat, compaction: Compaction::Off, comment_placement: CommentPlacement::Inline }
    }
}

/// Two spaces.
pub open spec fn two_spaces() -> Seq<char> {
    seq![' ', ' ']
}

/// The indentation written before a command or trivia line.
pub open spec fn indent_text(ind: Indent, in_label: bool, in_field: bool) -> Seq<char> {
    match ind {
        Indent::Flat => seq![],
        Indent::Label => if in_label {
            two_spaces()
        } else {
            seq![]
        },
        Indent::Field => (if in_label {
            two_spaces()
        } else {
            seq![]
        }) + (if in_field {
            two_spaces()
        } else {
            seq![]
        }),
    }
}

/// `code` with its leading `^` replaced by the current command prefix.
pub open spec fn remap_prefix_text(code: Seq<char>, prefix: char) -> Seq<char> {
    if prefix == '^' {
        code
    } else if code.len() > 0 && code[0] == '^' {
        seq![prefix] + code.drop_first()
    } else {
        code
    }
}

/// The text an argument slot contributes: its value when present, else nothing.
pub open spec fn arg_text(a: ArgSlot) -> Seq<char> {
    if a.presence == Presence::Value {
        match a.value {
            Some(v) => v@,
            None => seq![],
        }
    } else {
        seq![]
    }
}

/// The texts of all argument slots.
pub open spec fn arg_texts(args: Seq<ArgSlot>) -> Seq<Seq<char>> {
    args.map_values(|a: ArgSlot| arg_text(a))
}

/// The first `n` values after gluing the split group at `idx` (of `cnt`
/// values) back into one value.
pub open spec fn merge_upto(vals: Seq<Seq<char>>, idx: int, cnt: int, n: int) -> Seq<Seq<char>>
    decreases n,
{
    if n <= 0 {
        seq![]
    } else {
        let prev = merge_upto(vals, idx, cnt, n - 1);
        let i = n - 1;
        if i == idx {
            let end = if idx + cnt < vals.len() {
                idx + cnt
            } else {
                vals.len() as int
            };
            prev.push(concat_all(vals.subrange(idx, end)))
        } else if idx < i < idx + cnt {
            prev
        } else {
            prev.push(vals[i])
        }
    }
}

/// All values with the split group glued back together.
pub open spec fn merge_split(vals: Seq<Seq<char>>, idx: int, cnt: int) -> Seq<Seq<char>> {
    merge_upto(vals, idx, cnt, vals.len() as int)
}

/// Index of the last argument that holds a value.
pub open spec fn last_value_index(args: Seq<ArgSlot>) -> Option<int>
    decreases args.len(),
{
    if args.len() == 0 {
        None
    } else if args.last().presence == Presence::Value {
        Some(args.len() - 1)
    } else {
        last_value_index(args.drop_last())
    }
}

/// Where argument `i` lands after merging a split group at `idx` of `cnt` values.
pub open spec fn merged_index(i: int, idx: int, cnt: int) -> int {
    if i < idx {
        i
    } else if i < idx + cnt {
        idx
    } else {
        i - (cnt - 1)
    }
}

/// The argument text written after the opcode: a space unless the
/// signature says otherwise, then the (merged) values up to the last value,
/// joined by the signature's joiner (`,` without a signature).
pub open spec fn args_text(args: Seq<ArgSlot>, sig: Option<Signature>) -> Seq<char> {
    if args.len() == 0 {
        seq![]
    } else {
        let joiner = match sig {
            Some(s) => s.joiner@,
            None => seq![','],
        };
        let space = match sig {
            Some(s) => if s.no_space_after_opcode {
                seq![]
            } else {
                seq![' ']
            },
            None => seq![],
        };
        let vals = arg_texts(args);
        let split = match sig {
            Some(s) => s.split_rule,
            None => None,
        };
        let merged = match split {
            Some(r) => merge_split(vals, r.param_index as int, r.char_counts.len() as int),
            None => vals,
        };
        match last_value_index(args) {
            None => space,
            Some(i) => {
                let mi = match split {
                    Some(r) => merged_index(i, r.param_index as int, r.char_counts.len() as int),
                    None => i,
                };
                let n = if mi + 1 < merged.len() {
                    mi + 1
                } else {
                    merged.len() as int
                };
                space + join(merged.take(n), joiner)
            },
        }
    }
}

/// The full text of a command (without the trailing newline).
pub open spec fn command_text(code: Seq<char>, prefix: char, args: Seq<ArgSlot>, t: Option<ParserTables>) -> Seq<char> {
    remap_prefix_text(code, prefix) + args_text(args, spec_signature(t, code))
}

/// Emitter state: output so far, inside a label, inside a field, command prefix.
pub struct EmitState {
    pub out: Seq<char>,
    /// The output ends with a line break the emitter wrote after a line of
    /// its own, which field data or a payload that follows takes back.
    pub sep: bool,
    /// The last line written is a command's.
    pub after_command: bool,
    pub in_label: bool,
    pub in_field: bool,
    pub prefix: char,
}

/// The output without the emitter's own final line break, if it ends with
/// one: the text that nothing written later changes.
pub open spec fn kept(st: EmitState) -> Seq<char> {
    if st.sep && st.out.len() > 0 {
        st.out.drop_last()
    } else {
        st.out
    }
}

/// Whether every split rule in the tables names at least one part.
pub open spec fn split_rules_nonempty(t: Option<ParserTables>) -> bool {
    forall|code: Seq<char>|
        #![trigger spec_signature(t, code)]
        spec_signature(t, code) matches Some(s) ==> (s.split_rule matches Some(r)
            ==> r.char_counts.len() >= 1)
}

/// The prefix a `^CC` command with these arguments switches to, if any.
pub open spec fn cc_prefix(args: Seq<ArgSlot>) -> Option<char> {
    if args.len() > 0 && args[0].presence == Presence::Value && args[0].value is Some
        && args[0].value->0@.len() > 0 {
        Some(args[0].value->0@[0])
    } else {
        None
    }
}

/// A comment `text` goes at the end of the line before it: comments are
/// placed inline, the line is a command's, and it ends with the emitter's
/// own line break.
pub open spec fn inline_comment(st: EmitState, text: Seq<char>, ind: EmitConfig) -> bool {
    &&& ind.comment_placement == CommentPlacement::Inline
    &&& st.after_command
    &&& st.sep
    &&& text.len() > 0
    &&& text[0] == ';'
}

/// One step of the emitter over a node.
pub open spec fn emit_node(st: EmitState, n: Node, t: Option<ParserTables>, ind: EmitConfig) -> EmitState {
    match n {
        Node::Command { code, args, .. } => {
            let is_xa = code@ == "^XA"@;
            let is_xz = code@ == "^XZ"@;
            let in_label0 = if is_xz {
                false
            } else {
                st.in_label
            };
            let in_field0 = if is_xz {
                false
            } else {
                st.in_field
            };
            let opens = match spec_lookup(t, code@) {
                Some(e) => e.opens_field,
                None => false,
            };
            let closes = match spec_lookup(t, code@) {
                Some(e) => e.closes_field,
                None => false,
            };
            let glue = ind.compaction == Compaction::Field && in_field0 && st.sep;
            let line_start = if glue {
                kept(st)
            } else {
                st.out + indent_text(ind.indent, in_label0, in_field0)
            };
            let out = line_start + command_text(code@, st.prefix, args@, t) + seq!['\n'];
            let in_field1 = if closes {
                false
            } else {
                in_field0
            };
            let prefix = if code@ == "^CC"@ {
                match cc_prefix(args@) {
                    Some(c) => c,
                    None => st.prefix,
                }
            } else {
                st.prefix
            };
            EmitState {
                out,
                sep: true,
                after_command: true,
                in_label: if is_xa {
                    true
                } else {
                    in_label0
                },
                in_field: if opens {
                    true
                } else {
                    in_field1
                },
                prefix,
            }
        },
        Node::FieldData { content, .. } => EmitState {
            out: kept(st) + content@ + seq!['\n'],
            sep: true,
            after_command: false,
            ..st
        },
        Node::RawData { data, .. } => match data {
            Some(d) => EmitState {
                out: kept(st) + d@ + (if d@.len() > 0 && d@.last() == '\n' {
                    seq![]
                } else {
                    seq!['\n']
                }),
                sep: !(d@.len() > 0 && d@.last() == '\n'),
                after_command: false,
                ..st
            },
            None => st,
        },
        Node::Trivia { text, .. } => if trim(text@).len() == 0 {
            st
        } else if inline_comment(st, trim(text@), ind) {
            EmitState { out: kept(st) + seq![' '] + trim(text@) + seq!['\n'], sep: true, after_command: false, ..st }
        } else {
            EmitState {
                out: st.out + indent_text(ind.indent, st.in_label, st.in_field) + trim(text@) + seq!['\n'],
                sep: true,
                after_command: false,
                ..st
            }
        },
    }
}

/// The emitter state after a sequence of nodes.
pub open spec fn emit_nodes(st: EmitState, nodes: Seq<Node>, t: Option<ParserTables>, ind: EmitConfig) -> EmitState
    decreases nodes.len(),
{
    if nodes.len() == 0 {
        st
    } else {
        emit_node(emit_nodes(st, nodes.drop_last(), t, ind), nodes.last(), t, ind)
    }
}

/// The state a label starts in: the output so far and whether it ends
/// with the emitter's own line break, outside any label or field, with
/// the default prefix.
pub open spec fn label_start(prev: EmitState) -> EmitState {
    EmitState { out: prev.out, sep: prev.sep, after_command: false, in_label: false, in_field: false, prefix: '^' }
}

/// The emitter state after a sequence of labels.
pub open spec fn emit_labels_state(labels: Seq<Label>, t: Option<ParserTables>, ind: EmitConfig) -> EmitState
    decreases labels.len(),
{
    if labels.len() == 0 {
        EmitState { out: seq![], sep: false, after_command: false, in_label: false, in_field: false, prefix: '^' }
    } else {
        emit_nodes(label_start(emit_labels_state(labels.drop_last(), t, ind)), labels.last().nodes@, t, ind)
    }
}

/// The output after emitting a sequence of labels.
pub open spec fn emit_labels(labels: Seq<Label>, t: Option<ParserTables>, ind: EmitConfig) -> Seq<char> {
    emit_labels_state(labels, t, ind).out
}

/// The formatted text of an AST.
pub open spec fn spec_emit(ast: Ast, t: Option<ParserTables>, cfg: EmitConfig) -> Seq<char> {
    emit_labels(ast.labels@, t, cfg)
}

/// Writes the indentation for the current nesting.
fn push_indent(out: &mut Vec<char>, config: &EmitConfig, in_label: bool, in_field: bool)
    ensures
        final(out)@ == old(out)@ + indent_text(config.indent, in_label, in_field),
{
    let ghost start = out@;
    match config.indent {
        Indent::Flat => {
            assert(out@ =~= start + indent_text(config.indent, in_label, in_field));
        },
        Indent::Label => {
            if in_label {
                out.push(' ');
                out.push(' ');
            }
            assert(out@ =~= start + indent_text(config.indent, in_label, in_field));
        },
        Indent::Field => {
            if in_label {
                out.push(' ');
                out.push(' ');
            }
            if in_field {
                out.push(' ');
                out.push(' ');
            }
            assert(out@ =~= start + indent_text(config.indent, in_label, in_field));
        },
    }
}

/// Takes back the emitter's own final line break, when `sep` says the
/// output ends with one.
fn take_back_line_break(out: &mut Vec<char>, sep: bool)
    ensures
        final(out)@ == kept(EmitState { out: old(out)@, sep, after_command: false, in_label: false, in_field: false, prefix: '^' }),
{
    if sep && out.len() > 0 {
        out.pop();
    }
}

/// The code with its leading `^` replaced by the current command prefix.
fn remap_prefix(code: &Vec<char>, prefix: char) -> (r: Vec<char>)
    ensures
        r@ == remap_prefix_text(code@, prefix),
{
    if prefix == '^' {
        return code.clone();
    }
    if code.len() > 0 && code[0] == '^' {
        let mut result: Vec<char> = Vec::new();
        result.push(prefix);
        let mut k: usize = 1;
        while k < code.len()
            invariant
                1 <= k <= code.len(),
                result@ == seq![prefix] + code@.subrange(1, k as int),
            decreases code.len() - k,
        {
            result.push(code[k]);
            k = k + 1;
            assert(result@ =~= seq![prefix] + code@.subrange(1, k as int));
        }
        assert(code@.subrange(1, code.len() as int) =~= code@.drop_first());
        result
    } else {
        code.clone()
    }
}

/// Argument values, either borrowed (no split rule) or merged.
enum MergedArgs<'a> {
    Borrowed(&'a Vec<Vec<char>>),
    Owned(Vec<Vec<char>>),
}

impl<'a> MergedArgs<'a> {
    spec fn view_seq(&self) -> Seq<Seq<char>> {
        match self {
            MergedArgs::Borrowed(v) => v@.map_values(|x: Vec<char>| x@),
            MergedArgs::Owned(v) => v@.map_values(|x: Vec<char>| x@),
        }
    }

    fn len(&self) -> (n: usize)
        ensures
            n == self.view_seq().len(),
    {
        match self {
            MergedArgs::Borrowed(v) => v.len(),
            MergedArgs::Owned(v) => v.len(),
        }
    }

    fn get(&self, i: usize) -> (r: &Vec<char>)
        requires
            i < self.view_seq().len(),
        ensures
            r@ == self.view_seq()[i as int],
    {
        match self {
            MergedArgs::Borrowed(s) => &s[i],
            MergedArgs::Owned(v) => &v[i],
        }
    }
}

/// The values after gluing the `split_count` values at `param_index` back
/// into one value (the inverse of the parser's split rule).
fn merge_split_args(values: &Vec<Vec<char>>, param_index: usize, split_count: usize) -> (r: Vec<Vec<char>>)
    requires
        split_count >= 1,
    ensures
        r@.map_values(|x: Vec<char>| x@) == merge_split(
            values@.map_values(|x: Vec<char>| x@),
            param_index as int,
            split_count as int,
        ),
{
    let ghost vals = values@.map_values(|x: Vec<char>| x@);
    let mut result: Vec<Vec<char>> = Vec::new();
    let mut i: usize = 0;
    while i < values.len()
        invariant
            i <= values.len(),
            vals == values@.map_values(|x: Vec<char>| x@),
            split_count >= 1,
            result@.map_values(|x: Vec<char>| x@) == merge_upto(
                vals,
                param_index as int,
                split_count as int,
                i as int,
            ),
        decreases values.len() - i,
    {
        let ghost prev = result@.map_values(|x: Vec<char>| x@);
        if i == param_index {
            let end = if split_count < values.len() - param_index {
                param_index + split_count
            } else {
                values.len()
            };
            let ghost spec_end = if param_index + split_count < vals.len() {
                param_index + split_count
            } else {
                vals.len() as int
            };
            assert(end == spec_end);
            let mut group: Vec<char> = Vec::new();
            let mut k: usize = param_index;
            while k < end
                invariant
                    param_index <= k <= end <= values.len(),
                    vals == values@.map_values(|x: Vec<char>| x@),
                    group@ == concat_all(vals.subrange(param_index as int, k as int)),
                decreases end - k,
            {
                extend_chars(&mut group, &values[k]);
                assert(vals.subrange(param_index as int, k + 1).drop_last() =~= vals.subrange(
                    param_index as int,
                    k as int,
                ));
                k = k + 1;
            }
            result.push(group);
            assert(result@.map_values(|x: Vec<char>| x@) =~= prev.push(
                concat_all(vals.subrange(param_index as int, spec_end)),
            ));
        } else if i > param_index && i - param_index < split_count {
        } else {
            result.push(values[i].clone());
            assert(result@.map_values(|x: Vec<char>| x@) =~= prev.push(vals[i as int]));
        }
        i = i + 1;
    }
    result
}

/// Index of the last argument holding a value.
fn find_last_value(args: &Vec<ArgSlot>) -> (r: Option<usize>)
    ensures
        r matches Some(i) ==> last_value_index(args@) == Some(i as int),
        r is None ==> last_value_index(args@) is None,
{
    let mut j: usize = args.len();
    assert(args@.take(j as int) =~= args@);
    while j > 0
        invariant
            j <= args.len(),
            last_value_index(args@) == last_value_index(args@.take(j as int)),
        decreases j,
    {
        assert(args@.take(j as int).last() == args@[j - 1]);
        if args[j - 1].presence == Presence::Value {
            return Some(j - 1);
        }
        assert(args@.take(j as int).drop_last() =~= args@.take(j - 1));
        j = j - 1;
    }
    None
}

/// The texts of the argument slots.
fn collect_arg_values(args: &Vec<ArgSlot>) -> (r: Vec<Vec<char>>)
    ensures
        r@.map_values(|x: Vec<char>| x@) == arg_texts(args@),
{
    let mut r: Vec<Vec<char>> = Vec::new();
    let mut i: usize = 0;
    while i < args.len()
        invariant
            i <= args.len(),
            r@.len() == i,
            r@.map_values(|x: Vec<char>| x@) == arg_texts(args@).take(i as int),
        decreases args.len() - i,
    {
        let ghost prev = r@.map_values(|x: Vec<char>| x@);
        let v = match args[i].presence {
            Presence::Value => match &args[i].value {
                Some(s) => chars_of(s.as_str()),
                None => Vec::new(),
            },
            _ => Vec::new(),
        };
        assert(v@ == arg_text(args@[i as int]));
        let ghost vv = v@;
        let ghost old_r = r@;
        r.push(v);
        assert(r@ =~= old_r.push(r@[i as int]));
        assert(r@.map_values(|x: Vec<char>| x@) =~= prev.push(vv));
        assert(r@.map_values(|x: Vec<char>| x@) =~= arg_texts(args@).take(i + 1));
        i = i + 1;
    }
    assert(arg_texts(args@).take(args.len() as int) =~= arg_texts(args@));
    r
}

/// Writes one command (code and arguments) with the current prefix.
fn emit_command(out: &mut Vec<char>, code: &str, prefix: char, args: &Vec<ArgSlot>, tables: Option<&ParserTables>)
    requires
        split_rules_nonempty(opt_tables(tables)),
    ensures
        final(out)@ == old(out)@ + command_text(code@, prefix, args@, opt_tables(tables)),
{
    let ghost start = old(out)@;
    let code_chars = chars_of(code);
    let display_code = remap_prefix(&code_chars, prefix);
    extend_chars(out, &display_code);
    let sig = effective_signature(tables, code);
    let ghost ssig = spec_signature(opt_tables(tables), code@);
    assert(sig matches Some(s) ==> ssig == Some(*s));
    if args.len() == 0 {
        assert(out@ =~= start + command_text(code@, prefix, args@, opt_tables(tables)));
        return;
    }
    let joiner: Vec<char> = match sig {
        Some(s) => chars_of(s.joiner.as_str()),
        None => vec![','],
    };
    let no_space_after_opcode = match sig {
        Some(s) => s.no_space_after_opcode,
        None => true,
    };
    let ghost after_code = out@;
    if !no_space_after_opcode {
        out.push(' ');
    }
    let ghost after_space = out@;
    let arg_values = collect_arg_values(args);
    let split_rule = match sig {
        Some(s) => s.split_rule.as_ref(),
        None => None,
    };
    let merged = match split_rule {
        Some(rule) => MergedArgs::Owned(merge_split_args(&arg_values, rule.param_index, rule.char_counts.len())),
        None => MergedArgs::Borrowed(&arg_values),
    };
    let merged_len = merged.len();
    let last_value = find_last_value(args);
    let trim_to = match last_value {
        Some(idx) => {
            let mi = match split_rule {
                Some(rule) => {
                    let split_count = rule.char_counts.len();
                    let split_idx = rule.param_index;
                    if idx < split_idx {
                        idx
                    } else if idx - split_idx < split_count {
                        split_idx
                    } else {
                        idx - (split_count - 1)
                    }
                },
                None => idx,
            };
            if mi < merged_len {
                mi + 1
            } else {
                merged_len
            }
        },
        None => {
            assert(out@ =~= start + command_text(code@, prefix, args@, opt_tables(tables)));
            return;
        },
    };
    let ghost mseq = merged.view_seq();
    let mut i: usize = 0;
    while i < trim_to
        invariant
            i <= trim_to <= merged_len == mseq.len(),
            mseq == merged.view_seq(),
            out@ == after_space + join(mseq.take(i as int), joiner@),
        decreases trim_to - i,
    {
        if i > 0 {
            extend_chars(out, &joiner);
        }
        extend_chars(out, merged.get(i));
        proof {
            if i > 0 {
                assert(mseq.take(i + 1).drop_last() =~= mseq.take(i as int));
            } else {
                assert(mseq.take(1) =~= seq![mseq[0]]);
            }
        }
        i = i + 1;
    }
    proof {
        let vals = arg_texts(args@);
        assert(arg_values@.map_values(|x: Vec<char>| x@) == vals);
        let split0 = match ssig {
            Some(s) => s.split_rule,
            None => None,
        };
        let smerged = match split0 {
            Some(r) => merge_split(vals, r.param_index as int, r.char_counts.len() as int),
            None => vals,
        };
        assert(mseq == smerged);
        assert(after_code == start + remap_prefix_text(code@, prefix));
        let space = match ssig {
            Some(s) => if s.no_space_after_opcode {
                seq![]
            } else {
                seq![' ']
            },
            None => seq![],
        };
        assert(after_space == after_code + space);
        let li = last_value_index(args@).unwrap();
        let split = match ssig {
            Some(s) => s.split_rule,
            None => None,
        };
        let mi = match split {
            Some(r) => merged_index(li, r.param_index as int, r.char_counts.len() as int),
            None => li,
        };
        let n = if mi + 1 < smerged.len() {
            mi + 1
        } else {
            smerged.len() as int
        };
        assert(trim_to == n);
        let sj = match ssig {
            Some(s) => s.joiner@,
            None => seq![','],
        };
        assert(joiner@ == sj);
    }
    assert(out@ =~= start + command_text(code@, prefix, args@, opt_tables(tables)));
}

/// Emits every node of a label on top of `out`; `sep` says whether `out`
/// ends with the emitter's own line break, before and after.
fn emit_label(out: &mut Vec<char>, sep: &mut bool, label: &Label, tables: Option<&ParserTables>, config: &EmitConfig)
    requires
        split_rules_nonempty(opt_tables(tables)),
        *old(sep) ==> old(out)@.len() > 0,
    ensures
        *final(sep) ==> final(out)@.len() > 0,
        final(out)@ == emit_nodes(
            label_start(EmitState { out: old(out)@, sep: *old(sep), after_command: false, in_label: false, in_field: false, prefix: '^' }),
            label.nodes@,
            opt_tables(tables),
            *config,
        ).out,
        *final(sep) == emit_nodes(
            label_start(EmitState { out: old(out)@, sep: *old(sep), after_command: false, in_label: false, in_field: false, prefix: '^' }),
            label.nodes@,
            opt_tables(tables),
            *config,
        ).sep,
{
    let ghost t = opt_tables(tables);
    let ghost ind = *config;
    let mut in_label = false;
    let mut in_field = false;
    let mut cmd_prefix: char = '^';
    let ghost st0 = EmitState { out: out@, sep: *sep, after_command: false, in_label: false, in_field: false, prefix: '^' };
    let mut after_command = false;
    let mut idx: usize = 0;
    while idx < label.nodes.len()
        invariant
            idx <= label.nodes.len(),
            t == opt_tables(tables),
            ind == *config,
            split_rules_nonempty(t),
            *sep ==> out@.len() > 0,
            emit_nodes(st0, label.nodes@.take(idx as int), t, ind) == (EmitState {
                out: out@,
                sep: *sep,
                after_command,
                in_label,
                in_field,
                prefix: cmd_prefix,
            }),
        decreases label.nodes.len() - idx,
    {
        let ghost st = EmitState { out: out@, sep: *sep, after_command, in_label, in_field, prefix: cmd_prefix };
        assert(label.nodes@.take(idx + 1).drop_last() =~= label.nodes@.take(idx as int));
        let node = &label.nodes[idx];
        match node {
            Node::Command { code, args, .. } => {
                let is_xa = str_eq(code.as_str(), "^XA");
                let is_xz = str_eq(code.as_str(), "^XZ");
                if is_xz {
                    in_field = false;
                    in_label = false;
                }
                let entry = lookup_command(tables, code.as_str());
                let opens_field = match entry {
                    Some(ce) => ce.opens_field,
                    None => false,
                };
                let closes_field = match entry {
                    Some(ce) => ce.closes_field,
                    None => false,
                };
                if config.compaction == Compaction::Field && in_field && *sep {
                    take_back_line_break(out, *sep);
                } else {
                    push_indent(out, config, in_label, in_field);
                }
                if closes_field {
                    in_field = false;
                }
                emit_command(out, code.as_str(), cmd_prefix, args, tables);
                out.push('\n');
                *sep = true;
                after_command = true;
                if str_eq(code.as_str(), "^CC") {
                    if args.len() > 0 {
                        let arg = &args[0];
                        if arg.presence == Presence::Value {
                            if let Some(val) = &arg.value {
                                let vc = chars_of(val.as_str());
                                if vc.len() > 0 {
                                    cmd_prefix = vc[0];
                                }
                            }
                        }
                    }
                }
                if is_xa {
                    in_label = true;
                }
                if opens_field {
                    in_field = true;
                }
                proof {
                    let ns = emit_node(st, *node, t, ind);
                    assert(ns.out =~= out@);
                }
            },
            Node::FieldData { content, .. } => {
                take_back_line_break(out, *sep);
                let cc = chars_of(content.as_str());
                extend_chars(out, &cc);
                out.push('\n');
                *sep = true;
                after_command = false;
                proof {
                    let ns = emit_node(st, *node, t, ind);
                    assert(ns.out =~= out@);
                }
            },
            Node::RawData { data, .. } => {
                if let Some(d) = data {
                    take_back_line_break(out, *sep);
                    let dc = chars_of(d.as_str());
                    extend_chars(out, &dc);
                    if !(dc.len() > 0 && dc[dc.len() - 1] == '\n') {
                        out.push('\n');
                        *sep = true;
                    } else {
                        *sep = false;
                    }
                    after_command = false;
                }
                proof {
                    let ns = emit_node(st, *node, t, ind);
                    assert(ns.out =~= out@);
                }
            },
            Node::Trivia { text, .. } => {
                let tc = chars_of(text.as_str());
                let trimmed = trim_chars(&tc);
                if trimmed.len() > 0 {
                    if config.comment_placement == CommentPlacement::Inline && after_command && *sep
                        && trimmed[0] == ';' {
                        take_back_line_break(out, *sep);
                        out.push(' ');
                    } else {
                        push_indent(out, config, in_label, in_field);
                    }
                    extend_chars(out, &trimmed);
                    out.push('\n');
                    *sep = true;
                    after_command = false;
                }
                proof {
                    let ns = emit_node(st, *node, t, ind);
                    assert(ns.out =~= out@);
                }
            },
        }
        idx = idx + 1;
    }
    assert(label.nodes@.take(label.nodes.len() as int) =~= label.nodes@);
}

/// Emits formatted ZPL for an AST.
///
/// With tables, commands are rebuilt from the spec metadata (joiners, split
/// rules, structural flags); without tables, arguments are joined by commas.
pub fn emit_zpl(ast: &Ast, tables: Option<&ParserTables>, config: &EmitConfig) -> (r: String)
    requires
        split_rules_nonempty(opt_tables(tables)),
    ensures
        r@ == spec_emit(*ast, opt_tables(tables), *config),
{
    let mut out: Vec<char> = Vec::new();
    let mut sep = false;
    let mut i: usize = 0;
    while i < ast.labels.len()
        invariant
            i <= ast.labels.len(),
            split_rules_nonempty(opt_tables(tables)),
            sep ==> out@.len() > 0,
            out@ == emit_labels_state(ast.labels@.take(i as int), opt_tables(tables), *config).out,
            sep == emit_labels_state(ast.labels@.take(i as int), opt_tables(tables), *config).sep,
        decreases ast.labels.len() - i,
    {
        assert(ast.labels@.take(i + 1).drop_last() =~= ast.labels@.take(i as int));
        emit_label(&mut out, &mut sep, &ast.labels[i], tables, config);
        i = i + 1;
    }
    assert(ast.labels@.take(ast.labels.len() as int) =~= ast.labels@);
    string_from_chars(&out)
}

/// `b` is node `a` with its span replaced by the empty span at offset zero
/// (everything else the same).
pub open spec fn stripped(a: Node, b: Node) -> bool {
    let sentinel = Span { start: 0, end: 0 };
    match (a, b) {
        (Node::Command { code: c1, args: a1, .. }, Node::Command { code: c2, args: a2, span }) => c1 == c2
            && a1@ == a2@ && span == sentinel,
        (
            Node::FieldData { content: x, hex_escaped: h, .. },
            Node::FieldData { content: y, hex_escaped: g, span },
        ) => x == y && h == g && span == sentinel,
        (Node::RawData { command: c1, data: d1, .. }, Node::RawData { command: c2, data: d2, span }) => c1 == c2
            && d1 == d2 && span == sentinel,
        (Node::Trivia { text: t1, .. }, Node::Trivia { text: t2, span }) => t1 == t2 && span == sentinel,
        _ => false,
    }
}

/// `b` holds the nodes of `a` with spans stripped, one for one.
pub open spec fn stripped_nodes(a: Seq<Node>, b: Seq<Node>) -> bool {
    a.len() == b.len() && forall|j: int| 0 <= j < a.len() ==> stripped(#[trigger] a[j], b[j])
}

fn copy_string_opt(s: &Option<String>) -> (r: Option<String>)
    ensures
        r == *s,
{
    match s {
        Some(v) => Some(v.clone()),
        None => None,
    }
}

fn copy_args(args: &Vec<ArgSlot>) -> (r: Vec<ArgSlot>)
    ensures
        r@ == args@,
{
    let mut out: Vec<ArgSlot> = Vec::new();
    let mut i: usize = 0;
    while i < args.len()
        invariant
            i <= args.len(),
            out@ == args@.take(i as int),
        decreases args.len() - i,
    {
        let a = &args[i];
        let c = ArgSlot { key: copy_string_opt(&a.key), presence: a.presence, value: copy_string_opt(&a.value) };
        assert(c == args@[i as int]);
        out.push(c);
        i = i + 1;
        assert(out@ =~= args@.take(i as int));
    }
    assert(args@.take(args.len() as int) =~= args@);
    out
}

fn strip_node_exec(n: &Node) -> (r: Node)
    ensures
        stripped(*n, r),
{
    let sentinel = Span::new(0, 0);
    match n {
        Node::Command { code, args, .. } => Node::Command { code: code.clone(), args: copy_args(args), span: sentinel },
        Node::FieldData { content, hex_escaped, .. } => Node::FieldData {
            content: content.clone(),
            hex_escaped: *hex_escaped,
            span: sentinel,
        },
        Node::RawData { command, data, .. } => Node::RawData {
            command: command.clone(),
            data: copy_string_opt(data),
            span: sentinel,
        },
        Node::Trivia { text, .. } => Node::Trivia { text: text.clone(), span: sentinel },
    }
}

/// A copy of an AST with every span set to the empty span at offset zero,
/// for comparing ASTs without their source positions.
pub fn strip_spans(ast: &Ast) -> (r: Ast)
    ensures
        r.labels@.len() == ast.labels@.len(),
        forall|i: int| 0 <= i < r.labels@.len() ==> stripped_nodes(ast.labels@[i].nodes@, #[trigger] r.labels@[i].nodes@),
{
    let mut labels: Vec<Label> = Vec::new();
    let mut i: usize = 0;
    while i < ast.labels.len()
        invariant
            i <= ast.labels.len(),
            labels@.len() == i,
            forall|k: int| 0 <= k < i ==> stripped_nodes(ast.labels@[k].nodes@, #[trigger] labels@[k].nodes@),
        decreases ast.labels.len() - i,
    {
        let src = &ast.labels[i].nodes;
        let mut nodes: Vec<Node> = Vec::new();
        let mut j: usize = 0;
        while j < src.len()
            invariant
                j <= src.len(),
                nodes@.len() == j,
                forall|q: int| 0 <= q < j ==> stripped(#[trigger] src@[q], nodes@[q]),
                i < ast.labels@.len(),
                src@ == ast.labels@[i as int].nodes@,
                labels@.len() == i,
                forall|k: int| 0 <= k < i ==> stripped_nodes(ast.labels@[k].nodes@, #[trigger] labels@[k].nodes@),
            decreases src.len() - j,
        {
            let c = strip_node_exec(&src[j]);
            let ghost before = nodes@;
            nodes.push(c);
            proof {
                assert forall|q: int| 0 <= q < j + 1 implies stripped(#[trigger] src@[q], nodes@[q]) by {
                    if q < j {
                        assert(nodes@[q] == before[q]);
                    }
                }
            }
            j = j + 1;
        }
        assert(stripped_nodes(src@, nodes@));
        let ghost before = labels@;
        labels.push(Label { nodes });
        proof {
            assert forall|k: int| 0 <= k < i + 1 implies stripped_nodes(ast.labels@[k].nodes@, #[trigger] labels@[k].nodes@) by {
                if k < i {
                    assert(labels@[k] == before[k]);
                    assert(stripped_nodes(ast.labels@[k].nodes@, before[k].nodes@));
                } else {
                    assert(labels@[k].nodes@ == nodes@);
                    assert(ast.labels@[k].nodes@ == src@);
                }
            }
        }
        i = i + 1;
    }
    Ast { labels }
}

proof fn lemma_emit_node_ignores_span(st: EmitState, a: Node, b: Node, t: Option<ParserTables>, ind: EmitConfig)
    requires
        stripped(a, b),
    ensures
        emit_node(st, b, t, ind) == emit_node(st, a, t, ind),
{
}

proof fn lemma_emit_nodes_ignores_spans(st: EmitState, a: Seq<Node>, b: Seq<Node>, t: Option<ParserTables>, ind: EmitConfig)
    requires
        stripped_nodes(a, b),
    ensures
        emit_nodes(st, b, t, ind) == emit_nodes(st, a, t, ind),
    decreases a.len(),
{
    if a.len() > 0 {
        assert(stripped_nodes(a.drop_last(), b.drop_last())) by {
            assert forall|j: int| 0 <= j < a.drop_last().len() implies stripped(#[trigger] a.drop_last()[j], b.drop_last()[j]) by {
                assert(stripped(a[j], b[j]));
            }
        }
        lemma_emit_nodes_ignores_spans(st, a.drop_last(), b.drop_last(), t, ind);
        assert(stripped(a[a.len() - 1], b[b.len() - 1]));
        lemma_emit_node_ignores_span(emit_nodes(st, a.drop_last(), t, ind), a.last(), b.last(), t, ind);
    }
}

/// Source positions do not affect formatting: labels that differ only in
/// their spans format to the same text.
pub proof fn law_emit_ignores_spans(a: Seq<Label>, b: Seq<Label>, t: Option<ParserTables>, ind: EmitConfig)
    requires
        a.len() == b.len(),
        forall|i: int| 0 <= i < a.len() ==> stripped_nodes(a[i].nodes@, #[trigger] b[i].nodes@),
    ensures
        emit_labels_state(b, t, ind) == emit_labels_state(a, t, ind),
    decreases a.len(),
{
    if a.len() > 0 {
        assert forall|i: int| 0 <= i < a.drop_last().len() implies stripped_nodes(a.drop_last()[i].nodes@, #[trigger] b.drop_last()[i].nodes@) by {
            assert(stripped_nodes(a[i].nodes@, b[i].nodes@));
        }
        law_emit_ignores_spans(a.drop_last(), b.drop_last(), t, ind);
        let st = label_start(emit_labels_state(a.drop_last(), t, ind));
        assert(stripped_nodes(a[a.len() - 1].nodes@, b[b.len() - 1].nodes@));
        lemma_emit_nodes_ignores_spans(st, a.last().nodes@, b.last().nodes@, t, ind);
    }
}

/// Formatting an AST and formatting its span-stripped copy give the same
/// text.
pub proof fn law_format_of_stripped(ast: Ast, stripped_ast: Ast, t: Option<ParserTables>, cfg: EmitConfig)
    requires
        stripped_ast.labels@.len() == ast.labels@.len(),
        forall|i: int|
            0 <= i < ast.labels@.len() ==> stripped_nodes(ast.labels@[i].nodes@, #[trigger] stripped_ast.labels@[i].nodes@),
    ensures
        spec_emit(stripped_ast, t, cfg) == spec_emit(ast, t, cfg),
{
    law_emit_ignores_spans(ast.labels@, stripped_ast.labels@, t, cfg);
}

/// `p` occurs in `s` as a contiguous run of characters.
pub open spec fn occurs_in(p: Seq<char>, s: Seq<char>) -> bool {
    exists|i: int| 0 <= i && i + p.len() <= s.len() && #[trigger] s.subrange(i, i + p.len()) == p
}

/// `a` is a prefix of `b`.
pub open spec fn prefix_of(a: Seq<char>, b: Seq<char>) -> bool {
    a.len() <= b.len() && b.subrange(0, a.len() as int) == a
}

/// The text a node carries verbatim: field data's content, a raw payload.
pub open spec fn payload_of(n: Node) -> Option<Seq<char>> {
    match n {
        Node::FieldData { content, .. } => Some(content@),
        Node::RawData { data: Some(d), .. } => Some(d@),
        _ => None,
    }
}

/// An output that is empty or ends with a line break, and that ends with
/// one wherever the emitter marks its own.
pub open spec fn well_ended(st: EmitState) -> bool {
    &&& st.out.len() == 0 || st.out.last() == '\n'
    &&& st.sep ==> st.out.len() > 0
}

proof fn lemma_occurs_in_prefix(p: Seq<char>, a: Seq<char>, b: Seq<char>)
    requires
        occurs_in(p, a),
        prefix_of(a, b),
    ensures
        occurs_in(p, b),
{
    let i = choose|i: int| 0 <= i && i + p.len() <= a.len() && #[trigger] a.subrange(i, i + p.len()) == p;
    assert(b.subrange(i, i + p.len()) =~= a.subrange(i, i + p.len()));
}

proof fn lemma_prefix_trans(a: Seq<char>, b: Seq<char>, c: Seq<char>)
    requires
        prefix_of(a, b),
        prefix_of(b, c),
    ensures
        prefix_of(a, c),
{
    assert(c.subrange(0, a.len() as int) =~= b.subrange(0, a.len() as int));
}

/// One node keeps what was kept before, keeps its own payload, and leaves
/// the output well ended.
#[verifier::spinoff_prover]
#[verifier::rlimit(80)]
proof fn lemma_emit_node_keeps(st: EmitState, n: Node, t: Option<ParserTables>, ind: EmitConfig)
    requires
        well_ended(st),
    ensures
        prefix_of(kept(st), kept(emit_node(st, n, t, ind))),
        well_ended(emit_node(st, n, t, ind)),
        payload_of(n) matches Some(p) ==> occurs_in(p, kept(emit_node(st, n, t, ind))),
{
    let r = emit_node(st, n, t, ind);
    let k = kept(st);
    assert(prefix_of(k, st.out)) by {
        assert(st.out.subrange(0, k.len() as int) =~= k);
    }
    match n {
        Node::FieldData { content, .. } => {
            assert(r.out == k + content@ + seq!['\n']);
            assert(r.out.drop_last() =~= k + content@);
            assert(kept(r) =~= k + content@);
            assert(kept(r).subrange(0, k.len() as int) =~= k);
            assert(prefix_of(k, kept(r)));
            assert(kept(r).subrange(k.len() as int, (k.len() + content@.len()) as int) =~= content@);
        },
        Node::RawData { data: Some(d), .. } => {
            assert(kept(r) =~= k + d@);
            assert(kept(r).subrange(0, k.len() as int) =~= k);
            assert(prefix_of(k, kept(r)));
            assert(kept(r).subrange(k.len() as int, (k.len() + d@.len()) as int) =~= d@);
        },
        Node::RawData { data: None, .. } => {
            assert(k.subrange(0, k.len() as int) =~= k);
        },
        Node::Command { code, args, .. } => {
            let is_xz = code@ == "^XZ"@;
            let in_label0 = if is_xz {
                false
            } else {
                st.in_label
            };
            let in_field0 = if is_xz {
                false
            } else {
                st.in_field
            };
            let ct = command_text(code@, st.prefix, args@, t);
            if ind.compaction == Compaction::Field && in_field0 && st.sep {
                assert(r.out.drop_last() =~= k + ct);
                assert(kept(r).subrange(0, k.len() as int) =~= k);
            } else {
                let x = indent_text(ind.indent, in_label0, in_field0) + ct;
                assert(r.out.drop_last() =~= st.out + x);
                assert(kept(r).subrange(0, st.out.len() as int) =~= st.out);
                lemma_prefix_trans(k, st.out, kept(r));
            }
            assert(prefix_of(k, kept(r)));
        },
        Node::Trivia { text, .. } => {
            let tt = trim(text@);
            if tt.len() == 0 {
                assert(k.subrange(0, k.len() as int) =~= k);
            } else if inline_comment(st, tt, ind) {
                assert(r.out.drop_last() =~= k + seq![' '] + tt);
                assert(kept(r).subrange(0, k.len() as int) =~= k);
            } else {
                let x = indent_text(ind.indent, st.in_label, st.in_field) + tt;
                assert(r.out.drop_last() =~= st.out + x);
                assert(kept(r).subrange(0, st.out.len() as int) =~= st.out);
                lemma_prefix_trans(k, st.out, kept(r));
            }
        },
    }
}

/// Emitting nodes keeps what was kept before and every node's payload.
proof fn lemma_emit_nodes_keeps(st: EmitState, nodes: Seq<Node>, t: Option<ParserTables>, ind: EmitConfig)
    requires
        well_ended(st),
    ensures
        prefix_of(kept(st), kept(emit_nodes(st, nodes, t, ind))),
        well_ended(emit_nodes(st, nodes, t, ind)),
        forall|j: int|
            0 <= j < nodes.len() ==> (payload_of(#[trigger] nodes[j]) matches Some(p) ==> occurs_in(
                p,
                kept(emit_nodes(st, nodes, t, ind)),
            )),
    decreases nodes.len(),
{
    if nodes.len() == 0 {
        assert(kept(st).subrange(0, kept(st).len() as int) =~= kept(st));
    } else {
        let init = nodes.drop_last();
        let mid = emit_nodes(st, init, t, ind);
        lemma_emit_nodes_keeps(st, init, t, ind);
        lemma_emit_node_keeps(mid, nodes.last(), t, ind);
        let fin = emit_nodes(st, nodes, t, ind);
        lemma_prefix_trans(kept(st), kept(mid), kept(fin));
        assert forall|j: int| 0 <= j < nodes.len() implies (payload_of(#[trigger] nodes[j]) matches Some(p)
            ==> occurs_in(p, kept(fin))) by {
            if j < nodes.len() - 1 {
                assert(nodes[j] == init[j]);
                if let Some(p) = payload_of(nodes[j]) {
                    lemma_occurs_in_prefix(p, kept(mid), kept(fin));
                }
            }
        }
    }
}

/// Emitting labels keeps every label's payloads.
proof fn lemma_emit_labels_keeps(labels: Seq<Label>, t: Option<ParserTables>, ind: EmitConfig)
    ensures
        well_ended(emit_labels_state(labels, t, ind)),
        forall|i: int, j: int|
            0 <= i < labels.len() && 0 <= j < labels[i].nodes@.len() ==> (payload_of(
                #[trigger] labels[i].nodes@[j],
            ) matches Some(p) ==> occurs_in(p, kept(emit_labels_state(labels, t, ind)))),
    decreases labels.len(),
{
    if labels.len() > 0 {
        let init = labels.drop_last();
        lemma_emit_labels_keeps(init, t, ind);
        let prev = emit_labels_state(init, t, ind);
        let st = label_start(prev);
        assert(kept(st) == kept(prev));
        lemma_emit_nodes_keeps(st, labels.last().nodes@, t, ind);
        let fin = emit_labels_state(labels, t, ind);
        assert forall|i: int, j: int|
            0 <= i < labels.len() && 0 <= j < labels[i].nodes@.len() implies (payload_of(
                #[trigger] labels[i].nodes@[j],
            ) matches Some(p) ==> occurs_in(p, kept(fin))) by {
            if i < labels.len() - 1 {
                assert(labels[i] == init[i]);
                if let Some(p) = payload_of(labels[i].nodes@[j]) {
                    lemma_occurs_in_prefix(p, kept(prev), kept(fin));
                }
            } else {
                assert(labels[i].nodes@[j] == labels.last().nodes@[j]);
            }
        }
    }
}

/// Field data and raw payloads are written back byte for byte: the
/// content of every field-data node and every raw payload occurs verbatim
/// in the formatted text, and that text is empty or ends with a line
/// break.
pub proof fn law_emit_keeps_payloads(ast: Ast, t: Option<ParserTables>, cfg: EmitConfig)
    ensures
        forall|i: int, j: int|
            0 <= i < ast.labels@.len() && 0 <= j < ast.labels@[i].nodes@.len() ==> (payload_of(
                #[trigger] ast.labels@[i].nodes@[j],
            ) matches Some(p) ==> occurs_in(p, spec_emit(ast, t, cfg))),
        spec_emit(ast, t, cfg).len() == 0 || spec_emit(ast, t, cfg).last() == '\n',
{
    let labels = ast.labels@;
    lemma_emit_labels_keeps(labels, t, cfg);
    let fin = emit_labels_state(labels, t, cfg);
    assert(prefix_of(kept(fin), fin.out)) by {
        assert(fin.out.subrange(0, kept(fin).len() as int) =~= kept(fin));
    }
    assert forall|i: int, j: int|
        0 <= i < labels.len() && 0 <= j < labels[i].nodes@.len() implies (payload_of(
            #[trigger] labels[i].nodes@[j],
        ) matches Some(p) ==> occurs_in(p, spec_emit(ast, t, cfg))) by {
        if let Some(p) = payload_of(labels[i].nodes@[j]) {
            lemma_occurs_in_prefix(p, kept(fin), fin.out);
        }
    }
}

// ---------------------------------------------------------------------------
// Split-rule merging loses and adds no text
// ---------------------------------------------------------------------------

/// The text of a sequence of values that ends with one more value.
proof fn lemma_concat_all_push(s: Seq<Seq<char>>, x: Seq<char>)
    ensures
        concat_all(s.push(x)) == concat_all(s) + x,
{
    assert(s.push(x).drop_last() =~= s);
}

/// The text of the values before `c` is that of those before `a`, then
/// that of the values from `a` to `c`.
proof fn lemma_concat_all_split(vals: Seq<Seq<char>>, a: int, c: int)
    requires
        0 <= a <= c <= vals.len(),
    ensures
        concat_all(vals.take(c)) == concat_all(vals.take(a)) + concat_all(vals.subrange(a, c)),
    decreases c - a,
{
    if c == a {
        assert(vals.subrange(a, c) =~= Seq::<Seq<char>>::empty());
        assert(concat_all(vals.take(a)) + seq![] =~= concat_all(vals.take(a)));
    } else {
        lemma_concat_all_split(vals, a, c - 1);
        assert(vals.take(c) =~= vals.take(c - 1).push(vals[c - 1]));
        assert(vals.subrange(a, c) =~= vals.subrange(a, c - 1).push(vals[c - 1]));
        lemma_concat_all_push(vals.take(c - 1), vals[c - 1]);
        lemma_concat_all_push(vals.subrange(a, c - 1), vals[c - 1]);
        assert(concat_all(vals.take(c)) =~= concat_all(vals.take(a)) + concat_all(vals.subrange(a, c)));
    }
}

/// Where the group glued at `idx` (of `cnt` values) ends.
pub open spec fn group_end(len: int, idx: int, cnt: int) -> int {
    if idx + cnt < len {
        idx + cnt
    } else {
        len
    }
}

/// After the first `n` steps of merging, the merged values hold the text
/// of the first `n` values, or of the whole group when the steps are
/// inside it.
proof fn lemma_merge_upto_text(vals: Seq<Seq<char>>, idx: int, cnt: int, n: int)
    requires
        0 <= idx,
        cnt >= 1,
        0 <= n <= vals.len(),
    ensures
        concat_all(merge_upto(vals, idx, cnt, n)) == concat_all(vals.take(
            if idx < n && n < group_end(vals.len() as int, idx, cnt) {
                group_end(vals.len() as int, idx, cnt)
            } else {
                n
            },
        )),
        merge_upto(vals, idx, cnt, n).len() == if n <= idx {
            n
        } else if n < group_end(vals.len() as int, idx, cnt) {
            idx + 1
        } else {
            n - (group_end(vals.len() as int, idx, cnt) - idx) + 1
        },
    decreases n,
{
    let end = group_end(vals.len() as int, idx, cnt);
    if n == 0 {
        assert(vals.take(0) =~= Seq::<Seq<char>>::empty());
    } else {
        lemma_merge_upto_text(vals, idx, cnt, n - 1);
        let prev = merge_upto(vals, idx, cnt, n - 1);
        let i = n - 1;
        if i == idx {
            lemma_concat_all_split(vals, idx, end);
            lemma_concat_all_push(prev, concat_all(vals.subrange(idx, end)));
        } else if idx < i < idx + cnt {
        } else {
            assert(vals.take(n) =~= vals.take(i).push(vals[i]));
            lemma_concat_all_push(prev, vals[i]);
            lemma_concat_all_push(vals.take(i), vals[i]);
        }
    }
}

/// Merging a split group back into one value (at `idx`, of `cnt >= 1`
/// values) loses and adds no text: the merged values, read one after
/// another, spell exactly the values before merging; and the group's
/// `min(cnt, remaining)` values become one.
pub proof fn law_merge_split_keeps_text(vals: Seq<Seq<char>>, idx: int, cnt: int)
    requires
        0 <= idx,
        cnt >= 1,
    ensures
        concat_all(merge_split(vals, idx, cnt)) == concat_all(vals),
        merge_split(vals, idx, cnt).len() == if idx < vals.len() {
            vals.len() - (group_end(vals.len() as int, idx, cnt) - idx) + 1
        } else {
            vals.len() as int
        },
{
    lemma_merge_upto_text(vals, idx, cnt, vals.len() as int);
    assert(vals.take(vals.len() as int) =~= vals);
}

// ---------------------------------------------------------------------------
// The command prefix after ^CC
// ---------------------------------------------------------------------------

/// A command whose code starts with `^` is written with the current
/// prefix in place of that `^`, then the rest of its code, then its
/// arguments.
pub proof fn law_command_text_uses_prefix(code: Seq<char>, prefix: char, args: Seq<ArgSlot>, t: Option<ParserTables>)
    requires
        code.len() > 0,
        code[0] == '^',
    ensures
        command_text(code, prefix, args, t) == seq![prefix] + code.drop_first() + args_text(
            args,
            spec_signature(t, code),
        ),
        command_text(code, prefix, args, t)[0] == prefix,
{
    if prefix == '^' {
        assert(code =~= seq!['^'] + code.drop_first());
    }
}

/// The line a command node is written on ends with the command written
/// with the prefix in effect before it: the prefix, the rest of its code,
/// its arguments, and a line break.
pub proof fn law_command_line_uses_prefix(
    st: EmitState,
    code: String,
    args: Vec<ArgSlot>,
    span: Span,
    t: Option<ParserTables>,
    ind: EmitConfig,
)
    requires
        code@.len() > 0,
        code@[0] == '^',
    ensures
        ({
            let out = emit_node(st, Node::Command { code, args, span }, t, ind).out;
            let m = seq![st.prefix] + code@.drop_first() + args_text(args@, spec_signature(t, code@));
            &&& out.len() > m.len()
            &&& out.last() == '\n'
            &&& out.subrange(out.len() - 1 - m.len(), out.len() - 1) == m
        }),
{
    law_command_text_uses_prefix(code@, st.prefix, args@, t);
    let out = emit_node(st, Node::Command { code, args, span }, t, ind).out;
    let m = seq![st.prefix] + code@.drop_first() + args_text(args@, spec_signature(t, code@));
    assert(out.subrange(out.len() - 1 - m.len(), out.len() - 1) =~= m);
}

/// `^CC` whose first argument holds a value starting with `c` makes `c`
/// the prefix of the commands written after it.
pub proof fn law_cc_sets_prefix(
    st: EmitState,
    code: String,
    args: Vec<ArgSlot>,
    span: Span,
    t: Option<ParserTables>,
    ind: EmitConfig,
)
    requires
        code@ == "^CC"@,
        args@.len() > 0,
        args@[0].presence == Presence::Value,
        args@[0].value matches Some(v) && v@.len() > 0,
    ensures
        emit_node(st, Node::Command { code, args, span }, t, ind).prefix == args@[0].value->0@[0],
{
}

/// Every node other than `^CC` leaves the prefix as it was.
pub proof fn law_other_nodes_keep_prefix(st: EmitState, n: Node, t: Option<ParserTables>, ind: EmitConfig)
    requires
        !(n matches Node::Command { code, .. } && code@ == "^CC"@),
    ensures
        emit_node(st, n, t, ind).prefix == st.prefix,
{
}

/// The command written right after `^CC` with first value `c...` is
/// written with `c` in place of its leading `^`.
pub proof fn law_command_after_cc(
    st: EmitState,
    cc_code: String,
    cc_args: Vec<ArgSlot>,
    cc_span: Span,
    code: String,
    args: Vec<ArgSlot>,
    span: Span,
    t: Option<ParserTables>,
    ind: EmitConfig,
)
    requires
        cc_code@ == "^CC"@,
        cc_args@.len() > 0,
        cc_args@[0].presence == Presence::Value,
        cc_args@[0].value matches Some(v) && v@.len() > 0,
        code@.len() > 0,
        code@[0] == '^',
    ensures
        ({
            let mid = emit_node(st, Node::Command { code: cc_code, args: cc_args, span: cc_span }, t, ind);
            let out = emit_node(mid, Node::Command { code, args, span }, t, ind).out;
            let m = seq![cc_args@[0].value->0@[0]] + code@.drop_first() + args_text(args@, spec_signature(t, code@));
            &&& out.len() > m.len()
            &&& out.subrange(out.len() - 1 - m.len(), out.len() - 1) == m
        }),
{
    let mid = emit_node(st, Node::Command { code: cc_code, args: cc_args, span: cc_span }, t, ind);
    law_cc_sets_prefix(st, cc_code, cc_args, cc_span, t, ind);
    law_command_line_uses_prefix(mid, code, args, span, t, ind);
}

/// Without a signature, a command whose last argument holds a value is
/// written with every argument's text, joined by commas, right after its
/// code: no argument is dropped.
pub proof fn law_args_without_signature_keep_every_value(args: Seq<ArgSlot>)
    requires
        args.len() > 0,
        args.last().presence == Presence::Value,
    ensures
        args_text(args, None) == join(arg_texts(args), seq![',']),
{
    assert(last_value_index(args) == Some(args.len() - 1));
    assert(arg_texts(args).take(args.len() as int) =~= arg_texts(args));
}

} // verus!
