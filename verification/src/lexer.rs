//! ZPL lexer: splits raw input into a stream of tokens that borrow their
//! text from the input.

use crate::text::byte_slice;
use vstd::prelude::*;
use vstd::string::*;
use vstd::utf8::*;

verus! {

broadcast use vstd::seq::group_seq_axioms;

/// Classification of a ZPL lexer token.
#[derive(Debug, Clone, Copy, PartialEq, Eq, Structural)]
pub enum TokKind {
    /// Command leader character (`^` or `~`).
    Leader,
    /// Argument delimiter (`,` by default).
    Comma,
    /// A run of non-delimiter, non-leader characters.
    Value,
    /// A line break: `\n`, `\r` or `\r\n`.
    Newline,
    /// One or more whitespace characters (excluding line breaks).
    Whitespace,
}

/// A token whose `text` is exactly `input[start..end]`.
#[derive(Debug)]
pub struct Token<'a> {
    /// The classification of this token.
    pub kind: TokKind,
    /// Borrowed slice of the source input for this token.
    pub text: &'a str,
    /// Byte offset of the first byte.
    pub start: usize,
    /// Byte offset one past the last byte.
    pub end: usize,
}

/// The byte that an ASCII configuration character is encoded as.
pub open spec fn ascii_byte(c: char) -> u8 {
    (c as u32) as u8
}

/// Whether a configuration character is ASCII.
pub open spec fn is_ascii_char(c: char) -> bool {
    (c as u32) < 128
}

/// ASCII whitespace as Rust's `is_ascii_whitespace` defines it: space,
/// tab, line feed, form feed and carriage return.
pub open spec fn is_ascii_ws(b: u8) -> bool {
    b == 32 || b == 9 || b == 10 || b == 12 || b == 13
}

/// A line-break byte (`\n` or `\r`).
pub open spec fn is_line_break(b: u8) -> bool {
    b == 10 || b == 13
}

/// The lexer's configuration: command prefix, control prefix, delimiter.
pub struct LexConfig {
    pub cmd_prefix: u8,
    pub ctrl_prefix: u8,
    pub delimiter: u8,
}

/// A byte that starts a leader token.
pub open spec fn is_leader_byte(b: u8, p: u8, q: u8) -> bool {
    b == p || b == q
}

/// A byte that ends a value run.
pub open spec fn stops_value(b: u8, p: u8, q: u8, d: u8) -> bool {
    b == d || b == p || b == q || is_line_break(b)
}

/// End of the maximal run of non-line-break ASCII whitespace starting at `j`.
pub open spec fn ws_run_end(b: Seq<u8>, j: int) -> int
    decreases b.len() - j,
{
    if j < 0 || j >= b.len() || !(is_ascii_ws(b[j]) && !is_line_break(b[j])) {
        j
    } else {
        ws_run_end(b, j + 1)
    }
}

/// End of the maximal run starting at `j` of bytes that do not end a value.
pub open spec fn value_run_end(b: Seq<u8>, j: int, p: u8, q: u8, d: u8) -> int
    decreases b.len() - j,
{
    if j < 0 || j >= b.len() || stops_value(b[j], p, q, d) {
        j
    } else {
        value_run_end(b, j + 1, p, q, d)
    }
}

/// The kind and end offset of the token that starts at `i < b.len()`:
/// a prefix byte is a one-byte leader; otherwise a delimiter byte is a
/// one-byte comma; otherwise `\r\n`, `\r` or `\n` is a newline; otherwise
/// ASCII whitespace starts a maximal whitespace run; anything else starts a
/// maximal value run that stops at a delimiter, a prefix or a line break.
pub open spec fn token_at(b: Seq<u8>, i: int, p: u8, q: u8, d: u8) -> (TokKind, int) {
    let c = b[i];
    if is_leader_byte(c, p, q) {
        (TokKind::Leader, i + 1)
    } else if c == d {
        (TokKind::Comma, i + 1)
    } else if is_line_break(c) {
        if c == 13 && i + 1 < b.len() && b[i + 1] == 10 {
            (TokKind::Newline, i + 2)
        } else {
            (TokKind::Newline, i + 1)
        }
    } else if is_ascii_ws(c) {
        (TokKind::Whitespace, ws_run_end(b, i + 1))
    } else {
        (TokKind::Value, value_run_end(b, i + 1, p, q, d))
    }
}

/// The tokens (kind, start, end) of `b` from offset `i` on.
pub open spec fn tokens_from(b: Seq<u8>, i: int, p: u8, q: u8, d: u8) -> Seq<(TokKind, int, int)>
    decreases b.len() - i,
{
    if i < 0 || i >= b.len() {
        seq![]
    } else {
        let (k, e) = token_at(b, i, p, q, d);
        if e <= i || e > b.len() {
            seq![]
        } else {
            seq![(k, i, e)] + tokens_from(b, e, p, q, d)
        }
    }
}

/// The token triples of a vector of tokens.
pub open spec fn token_view<'a>(toks: Seq<Token<'a>>) -> Seq<(TokKind, int, int)> {
    toks.map_values(|t: Token<'a>| (t.kind, t.start as int, t.end as int))
}

/// The tokens of `input` under the given prefixes and delimiter.
pub open spec fn spec_tokenize(input: &str, p: char, q: char, d: char) -> Seq<(TokKind, int, int)> {
    tokens_from(input.spec_bytes(), 0, ascii_byte(p), ascii_byte(q), ascii_byte(d))
}

/// Every token's text is the slice of the input between its offsets, and
/// both offsets are character boundaries.
pub open spec fn texts_match<'a>(input: &str, toks: Seq<Token<'a>>) -> bool {
    forall|k: int|
        0 <= k < toks.len() ==> {
            &&& (#[trigger] toks[k]).start <= toks[k].end <= input.spec_bytes().len()
            &&& is_char_boundary(input.spec_bytes(), toks[k].start as int)
            &&& is_char_boundary(input.spec_bytes(), toks[k].end as int)
            &&& toks[k].text.spec_bytes() == input.spec_bytes().subrange(
                toks[k].start as int,
                toks[k].end as int,
            )
        }
}

proof fn lemma_ws_run_end_bounds(b: Seq<u8>, j: int)
    requires
        0 <= j <= b.len(),
    ensures
        j <= ws_run_end(b, j) <= b.len(),
        forall|k: int| j <= k < ws_run_end(b, j) ==> is_ascii_ws(#[trigger] b[k]),
    decreases b.len() - j,
{
    if j < b.len() && is_ascii_ws(b[j]) && !is_line_break(b[j]) {
        lemma_ws_run_end_bounds(b, j + 1);
    }
}

proof fn lemma_value_run_end_bounds(b: Seq<u8>, j: int, p: u8, q: u8, d: u8)
    requires
        0 <= j <= b.len(),
    ensures
        j <= value_run_end(b, j, p, q, d) <= b.len(),
        value_run_end(b, j, p, q, d) < b.len() ==> stops_value(
            b[value_run_end(b, j, p, q, d)],
            p,
            q,
            d,
        ),
    decreases b.len() - j,
{
    if j < b.len() && !stops_value(b[j], p, q, d) {
        lemma_value_run_end_bounds(b, j + 1, p, q, d);
    }
}

/// After an ASCII byte that starts a character, the next offset is also a
/// character boundary.
pub proof fn lemma_ascii_step(b: Seq<u8>, j: int)
    requires
        valid_utf8(b),
        0 <= j < b.len(),
        is_char_boundary(b, j),
        b[j] < 128,
    ensures
        is_char_boundary(b, j + 1),
    decreases b.len(),
{
    let l = length_of_first_scalar(b);
    let rest = pop_first_scalar(b);
    assert(valid_utf8(rest));
    if j == 0 {
        assert(is_leading_byte_width_1(b[0]));
        assert(l == 1);
        assert(is_char_boundary(rest, 0));
    } else {
        assert(is_char_boundary(rest, j - l));
        if j - l < 0 {
            assert(false);
        } else {
            assert(rest.len() == b.len() - l);
            assert(rest[j - l] == b[j]);
            lemma_ascii_step(rest, j - l);
        }
    }
}

/// A run of ASCII bytes that starts on a boundary ends on a boundary.
pub proof fn lemma_ascii_run(b: Seq<u8>, j: int, e: int)
    requires
        valid_utf8(b),
        0 <= j <= e <= b.len(),
        is_char_boundary(b, j),
        forall|k: int| j <= k < e ==> #[trigger] b[k] < 128,
    ensures
        is_char_boundary(b, e),
    decreases e - j,
{
    if j < e {
        lemma_ascii_step(b, j);
        lemma_ascii_run(b, j + 1, e);
    }
}

/// An offset at the end of the input, or at an ASCII byte, is a boundary.
pub proof fn lemma_boundary_at_ascii(b: Seq<u8>, e: int)
    requires
        valid_utf8(b),
        0 <= e <= b.len(),
        e < b.len() ==> b[e] < 128,
    ensures
        is_char_boundary(b, e),
{
    if e == b.len() {
        is_char_boundary_start_end_of_seq(b);
    } else {
        is_char_boundary_iff_not_is_continuation_byte(b, e);
    }
}

/// Tokenizes ZPL input with the default command prefix (`^`), control
/// prefix (`~`) and argument delimiter (`,`).
pub fn tokenize(input: &str) -> (toks: Vec<Token<'_>>)
    ensures
        token_view(toks@) == spec_tokenize(input, '^', '~', ','),
        texts_match(input, toks@),
        tokens_ordered(toks@),
{
    tokenize_with_config(input, '^', '~', ',')
}

/// Tokenizes ZPL input with the given command prefix, control prefix and
/// argument delimiter (each an ASCII character).
pub fn tokenize_with_config(input: &str, cmd_prefix: char, ctrl_prefix: char, delimiter: char) -> (toks: Vec<Token<'_>>)
    requires
        is_ascii_char(cmd_prefix),
        is_ascii_char(ctrl_prefix),
        is_ascii_char(delimiter),
    ensures
        token_view(toks@) == spec_tokenize(input, cmd_prefix, ctrl_prefix, delimiter),
        texts_match(input, toks@),
        tokens_ordered(toks@),
{
    let p = cmd_prefix as u8;
    let q = ctrl_prefix as u8;
    let d = delimiter as u8;
    assert(p == ascii_byte(cmd_prefix) && q == ascii_byte(ctrl_prefix) && d == ascii_byte(delimiter));
    let mut toks: Vec<Token<'_>> = Vec::new();
    let mut i: usize = 0;
    let b = input.as_bytes();
    let ghost bs = b@;
    proof {
        encode_utf8_valid_utf8(input@);
        is_char_boundary_start_end_of_seq(bs);
    }
    while i < b.len()
        invariant
            bs == b@,
            bs == input.spec_bytes(),
            valid_utf8(bs),
            p < 128 && q < 128 && d < 128,
            i <= b.len(),
            is_char_boundary(bs, i as int),
            token_view(toks@) + tokens_from(bs, i as int, p, q, d) == tokens_from(bs, 0, p, q, d),
            texts_match(input, toks@),
        decreases b.len() - i,
    {
        let c = b[i];
        let start = i;
        let kind;
        if c == p || c == q {
            i = i + 1;
            kind = TokKind::Leader;
        } else if c == d {
            i = i + 1;
            kind = TokKind::Comma;
        } else if c == 10 || c == 13 {
            if c == 13 && i + 1 < b.len() && b[i + 1] == 10 {
                i = i + 2;
            } else {
                i = i + 1;
            }
            kind = TokKind::Newline;
        } else if c == 32 || c == 9 || c == 12 {
            i = i + 1;
            while i < b.len() && (b[i] == 32 || b[i] == 9 || b[i] == 12)
                invariant
                    bs == b@,
                    start < i <= b.len(),
                    forall|k: int| start <= k < i ==> #[trigger] bs[k] < 128,
                    ws_run_end(bs, start + 1) == ws_run_end(bs, i as int),
                decreases b.len() - i,
            {
                i = i + 1;
            }
            kind = TokKind::Whitespace;
        } else {
            i = i + 1;
            while i < b.len() && !(b[i] == d || b[i] == p || b[i] == q || b[i] == 10 || b[i] == 13)
                invariant
                    bs == b@,
                    start < i <= b.len(),
                    value_run_end(bs, start + 1, p, q, d) == value_run_end(bs, i as int, p, q, d),
                decreases b.len() - i,
            {
                i = i + 1;
            }
            kind = TokKind::Value;
        }
        proof {
            let (k, e) = token_at(bs, start as int, p, q, d);
            assert(k == kind && e == i);
            if kind == TokKind::Value {
                assert(i == b.len() || stops_value(bs[i as int], p, q, d));
                lemma_boundary_at_ascii(bs, i as int);
            } else {
                assert forall|k: int| start <= k < i implies #[trigger] bs[k] < 128 by {
                }
                lemma_ascii_run(bs, start as int, i as int);
            }
        }
        let text = byte_slice(input, start, i);
        let ghost before = token_view(toks@);
        let ghost old_toks = toks@;
        toks.push(Token { kind, text, start, end: i });
        proof {
            assert(token_view(toks@) =~= before.push((kind, start as int, i as int)));
            assert(tokens_from(bs, start as int, p, q, d) =~= seq![(kind, start as int, i as int)]
                + tokens_from(bs, i as int, p, q, d));
            assert(token_view(toks@) + tokens_from(bs, i as int, p, q, d) =~= tokens_from(
                bs,
                0,
                p,
                q,
                d,
            ));
            assert forall|k: int| 0 <= k < toks@.len() implies {
                &&& (#[trigger] toks@[k]).start <= toks@[k].end <= input.spec_bytes().len()
                &&& is_char_boundary(input.spec_bytes(), toks@[k].start as int)
                &&& is_char_boundary(input.spec_bytes(), toks@[k].end as int)
                &&& toks@[k].text.spec_bytes() == input.spec_bytes().subrange(
                    toks@[k].start as int,
                    toks@[k].end as int,
                )
            } by {
                if k < old_toks.len() {
                    assert(toks@[k] == old_toks[k]);
                }
            }
        }
    }
    proof {
        assert(tokens_from(bs, i as int, p, q, d) =~= Seq::<(TokKind, int, int)>::empty());
        assert(token_view(toks@) =~= tokens_from(bs, 0, p, q, d));
        lemma_tiles_from(bs, 0, p, q, d);
        lemma_tiles_ordered(tokens_from(bs, 0, p, q, d), 0, bs.len() as int);
        let tv = token_view(toks@);
        assert forall|k: int| 0 <= k < toks@.len() implies (#[trigger] toks@[k]).start < toks@[k].end by {
            assert(tv[k].1 < tv[k].2);
        }
        assert forall|k: int, l: int| 0 <= k < l < toks@.len() implies (#[trigger] toks@[k]).end
            <= (#[trigger] toks@[l]).start by {
            assert(tv[k].2 <= tv[l].1);
        }
    }
    toks
}

/// Tokens are non-empty and in increasing, non-overlapping order.
pub open spec fn tokens_ordered<'a>(toks: Seq<Token<'a>>) -> bool {
    &&& forall|k: int| 0 <= k < toks.len() ==> (#[trigger] toks[k]).start < toks[k].end
    &&& forall|k: int, l: int| 0 <= k < l < toks.len() ==> (#[trigger] toks[k]).end <= (#[trigger] toks[l]).start
}

proof fn lemma_tiles_ordered(t: Seq<(TokKind, int, int)>, i: int, n: int)
    requires
        tiles(t, i, n),
    ensures
        forall|k: int, l: int| 0 <= k < l < t.len() ==> (#[trigger] t[k]).2 <= (#[trigger] t[l]).1,
{
    assert forall|k: int, l: int| 0 <= k < l < t.len() implies (#[trigger] t[k]).2 <= (#[trigger] t[l]).1 by {
        lemma_tiles_step(t, i, n, k, l);
    }
}

proof fn lemma_tiles_step(t: Seq<(TokKind, int, int)>, i: int, n: int, k: int, l: int)
    requires
        tiles(t, i, n),
        0 <= k < l < t.len(),
    ensures
        t[k].2 <= t[l].1,
    decreases l - k,
{
    if l > k + 1 {
        lemma_tiles_step(t, i, n, k, l - 1);
        assert(t[l - 1].1 < t[l - 1].2);
        assert(t[l - 1].2 == t[l].1);
    } else {
        assert(t[k].2 == t[k + 1].1);
    }
}

/// The token spans cover `[i, b.len())` without gaps or overlaps.
pub open spec fn tiles(t: Seq<(TokKind, int, int)>, i: int, n: int) -> bool {
    &&& (t.len() == 0 <==> i >= n)
    &&& t.len() > 0 ==> t[0].1 == i && t[t.len() - 1].2 == n
    &&& forall|k: int| 0 <= k < t.len() ==> (#[trigger] t[k]).1 < t[k].2
    &&& forall|k: int| 0 <= k < t.len() - 1 ==> (#[trigger] t[k]).2 == t[k + 1].1
}

proof fn lemma_token_at_advances(b: Seq<u8>, i: int, p: u8, q: u8, d: u8)
    requires
        0 <= i < b.len(),
    ensures
        i < token_at(b, i, p, q, d).1 <= b.len(),
{
    lemma_ws_run_end_bounds(b, i + 1);
    lemma_value_run_end_bounds(b, i + 1, p, q, d);
}

proof fn lemma_tiles_from(b: Seq<u8>, i: int, p: u8, q: u8, d: u8)
    requires
        0 <= i <= b.len(),
    ensures
        tiles(tokens_from(b, i, p, q, d), i, b.len() as int),
    decreases b.len() - i,
{
    if i < b.len() {
        lemma_token_at_advances(b, i, p, q, d);
        let e = token_at(b, i, p, q, d).1;
        lemma_tiles_from(b, e, p, q, d);
        let rest = tokens_from(b, e, p, q, d);
        let t = tokens_from(b, i, p, q, d);
        assert(t == seq![(token_at(b, i, p, q, d).0, i, e)] + rest);
        assert forall|k: int| 0 <= k < t.len() - 1 implies (#[trigger] t[k]).2 == t[k + 1].1 by {
            if k > 0 {
                assert(t[k] == rest[k - 1]);
                assert(t[k + 1] == rest[k]);
            }
        }
        assert forall|k: int| 0 <= k < t.len() implies (#[trigger] t[k]).1 < t[k].2 by {
            if k > 0 {
                assert(t[k] == rest[k - 1]);
            }
        }
    }
}

/// The tokens of any input cover it exactly: the first starts at offset 0,
/// each ends where the next starts, none is empty and the last ends at the
/// end of the input (no tokens for empty input).
pub proof fn law_tokens_tile_input(input: &str, p: char, q: char, d: char)
    ensures
        tiles(spec_tokenize(input, p, q, d), 0, input.spec_bytes().len() as int),
{
    lemma_tiles_from(input.spec_bytes(), 0, ascii_byte(p), ascii_byte(q), ascii_byte(d));
}

/// Each token is classified by its first byte: leaders are a prefix byte,
/// commas the delimiter byte, newlines start with a line break, whitespace
/// with a non-line-break ASCII space, and values with anything else.
pub proof fn law_token_kind_by_first_byte(input: &str, p: char, q: char, d: char, k: int)
    requires
        0 <= k < spec_tokenize(input, p, q, d).len(),
    ensures
        ({
            let t = spec_tokenize(input, p, q, d)[k];
            let b = input.spec_bytes();
            let (pb, qb, db) = (ascii_byte(p), ascii_byte(q), ascii_byte(d));
            &&& 0 <= t.1 < b.len()
            &&& (t.0 == TokKind::Leader) == is_leader_byte(b[t.1], pb, qb)
            &&& (t.0 == TokKind::Comma) == (!is_leader_byte(b[t.1], pb, qb) && b[t.1] == db)
            &&& t.0 == TokKind::Newline ==> is_line_break(b[t.1])
            &&& t.0 == TokKind::Whitespace ==> is_ascii_ws(b[t.1]) && !is_line_break(b[t.1])
            &&& t.0 == TokKind::Value ==> !stops_value(b[t.1], pb, qb, db) && !is_ascii_ws(b[t.1])
        }),
{
    let b = input.spec_bytes();
    lemma_kinds_from(b, 0, ascii_byte(p), ascii_byte(q), ascii_byte(d), k);
}

proof fn lemma_kinds_from(b: Seq<u8>, i: int, p: u8, q: u8, d: u8, k: int)
    requires
        0 <= i,
        0 <= k < tokens_from(b, i, p, q, d).len(),
    ensures
        ({
            let t = tokens_from(b, i, p, q, d)[k];
            &&& 0 <= t.1 < b.len()
            &&& t.0 == token_at(b, t.1, p, q, d).0
        }),
    decreases b.len() - i,
{
    let e = token_at(b, i, p, q, d).1;
    if k > 0 {
        lemma_kinds_from(b, e, p, q, d, k - 1);
    }
}

} // verus!
