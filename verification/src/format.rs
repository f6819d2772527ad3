//! Formatting entry points: ZPL text in, canonically formatted ZPL out.

use crate::args::slots_view;
use crate::ast::{ArgSlot, Ast, Label, Node};
use crate::emit::{
    arg_texts, args_text, cc_prefix, command_text, emit_labels, emit_labels_state, emit_node, label_start, emit_nodes, emit_zpl, last_value_index, spec_emit, EmitConfig,
    CommentPlacement, Compaction, EmitState, Indent,
};
use crate::parse_spec::{labels_view, node_view, nodes_view, spec_parse};
use crate::parser::{parse_ok, parse_str, ParseResult};
use crate::tables::{opt_tables, spec_signature, ParserTables};
use crate::text::str_eq;
use vstd::prelude::*;

verus! {

/// The indentation style an optional setting names: `"label"` and
/// `"field"` select those styles; anything else (or nothing) is flat.
pub open spec fn spec_indent(indent: Option<Seq<char>>) -> Indent {
    match indent {
        Some(s) => if s == "label"@ {
            Indent::Label
        } else if s == "field"@ {
            Indent::Field
        } else {
            Indent::Flat
        },
        None => Indent::Flat,
    }
}

/// The view of an optional string.
pub open spec fn opt_view(s: Option<&str>) -> Option<Seq<char>> {
    match s {
        Some(t) => Some(t@),
        None => None,
    }
}

/// Parses an indent setting into [`Indent`].
pub fn parse_indent(indent: Option<&str>) -> (r: Indent)
    ensures
        r == spec_indent(opt_view(indent)),
{
    match indent {
        Some(s) => if str_eq(s, "label") {
            Indent::Label
        } else if str_eq(s, "field") {
            Indent::Field
        } else {
            Indent::Flat
        },
        None => Indent::Flat,
    }
}

/// The compaction an optional setting names: `"field"` compacts field
/// blocks; anything else (or nothing) does not.
pub open spec fn spec_compaction(c: Option<Seq<char>>) -> Compaction {
    match c {
        Some(s) => if s == "field"@ {
            Compaction::Field
        } else {
            Compaction::Off
        },
        None => Compaction::Off,
    }
}

/// Parses a compaction setting into [`Compaction`].
pub fn parse_compaction(compaction: Option<&str>) -> (r: Compaction)
    ensures
        r == spec_compaction(opt_view(compaction)),
{
    match compaction {
        Some(s) => if str_eq(s, "field") {
            Compaction::Field
        } else {
            Compaction::Off
        },
        None => Compaction::Off,
    }
}

/// The comment placement an optional setting names: `"line"` keeps
/// comments on lines of their own; anything else (or nothing) places them
/// inline.
pub open spec fn spec_comment_placement(c: Option<Seq<char>>) -> CommentPlacement {
    match c {
        Some(s) => if s == "line"@ {
            CommentPlacement::Line
        } else {
            CommentPlacement::Inline
        },
        None => CommentPlacement::Inline,
    }
}

/// Parses a comment-placement setting into [`CommentPlacement`].
pub fn parse_comment_placement(comment_placement: Option<&str>) -> (r: CommentPlacement)
    ensures
        r == spec_comment_placement(opt_view(comment_placement)),
{
    match comment_placement {
        Some(s) => if str_eq(s, "line") {
            CommentPlacement::Line
        } else {
            CommentPlacement::Inline
        },
        None => CommentPlacement::Inline,
    }
}

/// The emitter configuration the three settings name.
pub open spec fn spec_config(
    indent: Option<Seq<char>>,
    compaction: Option<Seq<char>>,
    comment_placement: Option<Seq<char>>,
) -> EmitConfig {
    EmitConfig {
        indent: spec_indent(indent),
        compaction: spec_compaction(compaction),
        comment_placement: spec_comment_placement(comment_placement),
    }
}

/// Formats a parsed document with the given settings, without spec
/// tables.
pub fn format_ast(
    res: &ParseResult,
    indent: Option<&str>,
    compaction: Option<&str>,
    comment_placement: Option<&str>,
) -> (r: String)
    ensures
        r@ == spec_emit(
            res.ast,
            None,
            spec_config(opt_view(indent), opt_view(compaction), opt_view(comment_placement)),
        ),
{
    let config = EmitConfig {
        indent: parse_indent(indent),
        compaction: parse_compaction(compaction),
        comment_placement: parse_comment_placement(comment_placement),
    };
    let tables: Option<&ParserTables> = None;
    assert(opt_tables(tables) == None::<ParserTables>);
    emit_zpl(&res.ast, tables, &config)
}

/// Argument slots with the same views give the same argument texts, the
/// same last value and the same `^CC` prefix.
proof fn lemma_args_same_view(a: Seq<ArgSlot>, b: Seq<ArgSlot>)
    requires
        slots_view(a) == slots_view(b),
    ensures
        arg_texts(a) == arg_texts(b),
        last_value_index(a) == last_value_index(b),
        cc_prefix(a) == cc_prefix(b),
    decreases a.len(),
{
    assert(a.len() == slots_view(a).len() && b.len() == slots_view(b).len());
    assert forall|k: int| 0 <= k < a.len() implies a[k].presence == b[k].presence && (a[k].value is Some
        <==> b[k].value is Some) && (a[k].value is Some ==> a[k].value->0@ == b[k].value->0@) by {
        assert(slots_view(a)[k] == slots_view(b)[k]);
    }
    assert(arg_texts(a) =~= arg_texts(b));
    if a.len() > 0 {
        let (da, db) = (a.drop_last(), b.drop_last());
        assert forall|k: int| 0 <= k < da.len() implies slots_view(da)[k] == slots_view(db)[k] by {
            assert(slots_view(a)[k] == slots_view(b)[k]);
            assert(da[k] == a[k] && db[k] == b[k]);
        }
        assert(slots_view(da) =~= slots_view(db));
        lemma_args_same_view(da, db);
    }
}

/// Emitting a node depends only on its view.
proof fn lemma_emit_node_same_view(st: EmitState, m: Node, n: Node, t: Option<ParserTables>, ind: EmitConfig)
    requires
        node_view(m) == node_view(n),
    ensures
        emit_node(st, m, t, ind) == emit_node(st, n, t, ind),
{
    if let Node::Command { code: cm, args: am, .. } = m {
        if let Node::Command { code: cn, args: an, .. } = n {
            lemma_args_same_view(am@, an@);
            assert(cm@ == cn@);
            assert(am@.len() == an@.len()) by {
                assert(slots_view(am@).len() == slots_view(an@).len());
            }
            let sig = spec_signature(t, cm@);
            assert(args_text(am@, sig) == args_text(an@, sig));
            assert(command_text(cm@, st.prefix, am@, t) == command_text(cn@, st.prefix, an@, t));
        }
    }
}

/// Emitting nodes depends only on their views.
proof fn lemma_emit_nodes_same_view(st: EmitState, a: Seq<Node>, b: Seq<Node>, t: Option<ParserTables>, ind: EmitConfig)
    requires
        nodes_view(a) == nodes_view(b),
    ensures
        emit_nodes(st, a, t, ind) == emit_nodes(st, b, t, ind),
    decreases a.len(),
{
    assert(a.len() == nodes_view(a).len() && b.len() == nodes_view(b).len());
    if a.len() > 0 {
        let (da, db) = (a.drop_last(), b.drop_last());
        assert forall|k: int| 0 <= k < da.len() implies nodes_view(da)[k] == nodes_view(db)[k] by {
            assert(nodes_view(a)[k] == nodes_view(b)[k]);
            assert(da[k] == a[k] && db[k] == b[k]);
            assert(nodes_view(a)[k] == node_view(a[k]));
            assert(nodes_view(b)[k] == node_view(b[k]));
            assert(nodes_view(da)[k] == node_view(da[k]));
            assert(nodes_view(db)[k] == node_view(db[k]));
        }
        assert(nodes_view(da) =~= nodes_view(db));
        assert(nodes_view(a)[a.len() - 1] == nodes_view(b)[a.len() - 1]);
        assert(nodes_view(a)[a.len() - 1] == node_view(a.last()));
        assert(nodes_view(b)[a.len() - 1] == node_view(b.last()));
        lemma_emit_nodes_same_view(st, a.drop_last(), b.drop_last(), t, ind);
        lemma_emit_node_same_view(emit_nodes(st, a.drop_last(), t, ind), a.last(), b.last(), t, ind);
    }
}

/// The emitted text of labels depends only on the labels' views: two
/// documents whose labels hold the same nodes format alike.
pub proof fn law_emit_depends_on_view(a: Seq<Label>, b: Seq<Label>, t: Option<ParserTables>, ind: EmitConfig)
    requires
        labels_view(a) == labels_view(b),
    ensures
        emit_labels_state(a, t, ind) == emit_labels_state(b, t, ind),
    decreases a.len(),
{
    assert(a.len() == labels_view(a).len() && b.len() == labels_view(b).len());
    if a.len() > 0 {
        let (da, db) = (a.drop_last(), b.drop_last());
        assert forall|k: int| 0 <= k < da.len() implies labels_view(da)[k] == labels_view(db)[k] by {
            assert(labels_view(a)[k] == labels_view(b)[k]);
            assert(da[k] == a[k] && db[k] == b[k]);
        }
        assert(labels_view(da) =~= labels_view(db));
        assert(labels_view(a)[a.len() - 1] == labels_view(b)[a.len() - 1]);
        law_emit_depends_on_view(a.drop_last(), b.drop_last(), t, ind);
        lemma_emit_nodes_same_view(
            label_start(emit_labels_state(a.drop_last(), t, ind)),
            a.last().nodes@,
            b.last().nodes@,
            t,
            ind,
        );
    }
}

/// The formatted text of `input`: the emitted text (without tables, with
/// the configuration the settings name) of the labels [`spec_parse`] gives.
pub open spec fn spec_format(input: &str, cfg: EmitConfig) -> Seq<char> {
    let ast = choose|a: Ast| labels_view(a.labels@) == spec_parse(input, None).0;
    spec_emit(ast, None, cfg)
}

/// Formats ZPL text with the given indent, compaction and comment-placement
/// settings: parses it without spec tables and emits the result.
pub fn format_zpl_with_options(
    input: &str,
    indent: Option<&str>,
    compaction: Option<&str>,
    comment_placement: Option<&str>,
) -> (r: String)
    ensures
        r@ == spec_format(input, spec_config(opt_view(indent), opt_view(compaction), opt_view(comment_placement))),
{
    let res = parse_str(input);
    let r = format_ast(&res, indent, compaction, comment_placement);
    proof {
        let ast = choose|a: Ast| labels_view(a.labels@) == spec_parse(input, None).0;
        assert(labels_view(ast.labels@) == labels_view(res.ast.labels@));
        law_emit_depends_on_view(
            ast.labels@,
            res.ast.labels@,
            None,
            spec_config(opt_view(indent), opt_view(compaction), opt_view(comment_placement)),
        );
    }
    r
}

/// Formats ZPL text with the given indent setting and the default
/// compaction and comment placement.
pub fn format_zpl(input: &str, indent: Option<&str>) -> (r: String)
    ensures
        r@ == spec_format(input, spec_config(opt_view(indent), None, None)),
{
    format_zpl_with_options(input, indent, None, None)
}

} // verus!
