//! Opcode recognition: how many characters after a command leader form the
//! command code (opcode trie, then known codes, then a heuristic).

use crate::tables::{opt_tables, opt_tables_wf, spec_known, trie_wf, OpcodeTrie, ParserTables};
use crate::text::{string_from_chars};
use vstd::prelude::*;

verus! {

broadcast use vstd::seq::group_seq_axioms;

/// Index of the first child edge labelled `c`.
pub open spec fn first_child(ch: Seq<(char, usize)>, c: char) -> Option<int>
    decreases ch.len(),
{
    if ch.len() == 0 {
        None
    } else {
        match first_child(ch.drop_last(), c) {
            Some(i) => Some(i),
            None => if ch.last().0 == c {
                Some(ch.len() - 1)
            } else {
                None
            },
        }
    }
}

/// The node that the first edge labelled `c` leads to.
pub open spec fn child_node(tr: OpcodeTrie, n: int, c: char) -> Option<int> {
    match first_child(tr.nodes@[n].children@, c) {
        Some(j) => Some(tr.nodes@[n].children@[j].1 as int),
        None => None,
    }
}

/// Walks the trie from node `n` over at most three input bytes starting at
/// `pos + k`, remembering the length of the longest terminal prefix.
pub open spec fn trie_scan(tr: OpcodeTrie, n: int, b: Seq<u8>, pos: int, k: int, last: Option<int>) -> Option<int>
    decreases 3 - k,
{
    if k >= 3 || pos + k >= b.len() || pos + k < 0 || n < 0 || n >= tr.nodes@.len() {
        last
    } else {
        match child_node(tr, n, b[pos + k] as char) {
            Some(m) => if 0 <= m < tr.nodes@.len() {
                trie_scan(
                    tr,
                    m,
                    b,
                    pos,
                    k + 1,
                    if tr.nodes@[m].terminal {
                        Some(k + 1)
                    } else {
                        last
                    },
                )
            } else {
                last
            },
            None => last,
        }
    }
}

/// Length of the longest opcode the trie recognizes after `leader` at `pos`.
pub open spec fn trie_match(t: Option<ParserTables>, leader: char, b: Seq<u8>, pos: int) -> Option<int> {
    match t {
        Some(tt) => match tt.opcode_trie {
            Some(tr) => match child_node(tr, 0, leader) {
                Some(ln) => trie_scan(tr, ln, b, pos, 0, None),
                None => None,
            },
            None => None,
        },
        None => None,
    }
}

/// The characters that bytes `b[pos..pos + len]` stand for one by one.
pub open spec fn byte_chars(b: Seq<u8>, pos: int, len: int) -> Seq<char> {
    Seq::new(len as nat, |j: int| b[pos + j] as char)
}

/// An ASCII letter, digit or `@`.
pub open spec fn is_code_byte(x: u8) -> bool {
    (48 <= x <= 57) || (65 <= x <= 90) || (97 <= x <= 122) || x == 64
}

/// Number of code bytes (at most three) at `pos + k` and after.
pub open spec fn cand_len(b: Seq<u8>, pos: int, k: int) -> int
    decreases 3 - k,
{
    if k >= 3 || pos + k >= b.len() || pos + k < 0 || !is_code_byte(b[pos + k]) {
        0
    } else {
        1 + cand_len(b, pos, k + 1)
    }
}

/// The longest prefix (of length at most `l`) of `cand` that makes a known code.
pub open spec fn longest_known(t: ParserTables, leader: char, cand: Seq<char>, l: int) -> Option<int>
    decreases l,
{
    if l <= 0 {
        None
    } else if spec_known(t, seq![leader] + cand.take(l)) {
        Some(l)
    } else {
        longest_known(t, leader, cand, l - 1)
    }
}

/// The character for input position `p`, or NUL past the end.
pub open spec fn char_at_or_nul(b: Seq<u8>, p: int) -> char {
    if 0 <= p < b.len() {
        b[p] as char
    } else {
        '\0'
    }
}

/// An ASCII letter.
pub open spec fn is_alpha(c: char) -> bool {
    ('a' <= c <= 'z') || ('A' <= c <= 'Z')
}

/// An ASCII digit.
pub open spec fn is_digit(c: char) -> bool {
    '0' <= c <= '9'
}

/// The table-free guess: three letters; else a letter followed by a
/// letter, digit or `@`; else the single next character (none at the end).
pub open spec fn heuristic_head(b: Seq<u8>, pos: int) -> Seq<char> {
    let c1 = char_at_or_nul(b, pos);
    let c2 = char_at_or_nul(b, pos + 1);
    let c3 = char_at_or_nul(b, pos + 2);
    if is_alpha(c1) && is_alpha(c2) && is_alpha(c3) {
        seq![c1, c2, c3]
    } else if is_alpha(c1) && (is_alpha(c2) || is_digit(c2) || c2 == '@') {
        seq![c1, c2]
    } else if c1 != '\0' {
        seq![c1]
    } else {
        seq![]
    }
}

/// The opcode head recognized after `leader` at byte offset `pos`: the
/// trie's longest terminal match; else the longest prefix of the next code
/// bytes that makes a known code; else the heuristic guess.
pub open spec fn spec_recognize(t: Option<ParserTables>, leader: char, b: Seq<u8>, pos: int) -> Seq<char> {
    match trie_match(t, leader, b, pos) {
        Some(l) => byte_chars(b, pos, l),
        None => {
            let h = heuristic_head(b, pos);
            match t {
                Some(tt) => {
                    let cl = cand_len(b, pos, 0);
                    match longest_known(tt, leader, byte_chars(b, pos, cl), cl) {
                        Some(l) => byte_chars(b, pos, l),
                        None => h,
                    }
                },
                None => h,
            }
        },
    }
}

fn find_child(ch: &Vec<(char, usize)>, c: char) -> (r: Option<usize>)
    ensures
        r matches Some(j) ==> first_child(ch@, c) == Some(j as int) && j < ch@.len(),
        r is None ==> first_child(ch@, c) is None,
{
    let mut j: usize = 0;
    while j < ch.len()
        invariant
            j <= ch.len(),
            first_child(ch@.take(j as int), c) is None,
        decreases ch.len() - j,
    {
        assert(ch@.take(j + 1).drop_last() =~= ch@.take(j as int));
        if ch[j].0 == c {
            proof {
                lemma_first_child_extend(ch@, c, j + 1);
            }
            return Some(j);
        }
        j = j + 1;
    }
    assert(ch@.take(ch.len() as int) =~= ch@);
    None
}

proof fn lemma_first_child_extend(ch: Seq<(char, usize)>, c: char, n: int)
    requires
        0 < n <= ch.len(),
        first_child(ch.take(n), c) is Some,
    ensures
        first_child(ch, c) == first_child(ch.take(n), c),
    decreases ch.len() - n,
{
    if n < ch.len() {
        assert(ch.take(n + 1).drop_last() =~= ch.take(n));
        lemma_first_child_extend(ch, c, n + 1);
    } else {
        assert(ch.take(n) =~= ch);
    }
}

fn trie_child(tr: &OpcodeTrie, n: usize, c: char) -> (r: Option<usize>)
    requires
        trie_wf(*tr),
        n < tr.nodes@.len(),
    ensures
        r matches Some(m) ==> child_node(*tr, n as int, c) == Some(m as int) && m < tr.nodes@.len(),
        r is None ==> child_node(*tr, n as int, c) is None,
{
    match find_child(&tr.nodes[n].children, c) {
        Some(j) => {
            assert(tr.nodes@[n as int].children@[j as int].1 < tr.nodes@.len());
            Some(tr.nodes[n].children[j].1)
        },
        None => None,
    }
}

fn trie_match_exec(tables: Option<&ParserTables>, leader: char, b: &[u8], pos: usize) -> (r: Option<usize>)
    requires
        opt_tables_wf(opt_tables(tables)),
    ensures
        r matches Some(l) ==> trie_match(opt_tables(tables), leader, b@, pos as int) == Some(l as int),
        r is None ==> trie_match(opt_tables(tables), leader, b@, pos as int) is None,
{
    let t = match tables {
        Some(t) => t,
        None => return None,
    };
    let tr = match &t.opcode_trie {
        Some(tr) => tr,
        None => return None,
    };
    let mut node = match trie_child(tr, 0, leader) {
        Some(m) => m,
        None => return None,
    };
    let mut last: Option<usize> = None;
    let mut k: usize = 0;
    let mut go = true;
    while go && k < 3
        invariant
            trie_wf(*tr),
            k <= 3,
            node < tr.nodes@.len(),
            trie_match(opt_tables(tables), leader, b@, pos as int) == if go {
                trie_scan(
                    *tr,
                    node as int,
                    b@,
                    pos as int,
                    k as int,
                    match last {
                        Some(l) => Some(l as int),
                        None => None,
                    },
                )
            } else {
                match last {
                    Some(l) => Some(l as int),
                    None => None,
                }
            },
        decreases 3 - k, if go { 1int } else { 0int },
    {
        if pos >= b.len() || k >= b.len() - pos {
            go = false;
        } else {
            let ch = b[pos + k] as char;
            match trie_child(tr, node, ch) {
                Some(next) => {
                    node = next;
                    if tr.nodes[node].terminal {
                        last = Some(k + 1);
                    }
                    k = k + 1;
                },
                None => {
                    go = false;
                },
            }
        }
    }
    last
}

/// The length of the candidate run of code bytes (at most three) at `pos`.
fn cand_len_exec(b: &[u8], pos: usize) -> (r: usize)
    ensures
        r as int == cand_len(b@, pos as int, 0),
        r <= 3,
        pos as int + r <= b@.len() || r == 0,
{
    let mut k: usize = 0;
    while k < 3 && pos < b.len() && k < b.len() - pos && ((48 <= b[pos + k] && b[pos + k] <= 57) || (
    65 <= b[pos + k] && b[pos + k] <= 90) || (97 <= b[pos + k] && b[pos + k] <= 122) || b[pos + k]
        == 64)
        invariant
            k <= 3,
            cand_len(b@, pos as int, 0) == k + cand_len(b@, pos as int, k as int),
            k == 0 || pos + k <= b@.len(),
        decreases 3 - k,
    {
        k = k + 1;
    }
    k
}

/// The characters of bytes `b[pos..pos + len]`, one per byte.
fn bytes_to_chars(b: &[u8], pos: usize, len: usize) -> (r: Vec<char>)
    requires
        pos + len <= b.len(),
    ensures
        r@ == byte_chars(b@, pos as int, len as int),
{
    let mut r: Vec<char> = Vec::new();
    let mut j: usize = 0;
    while j < len
        invariant
            j <= len,
            pos + len <= b.len(),
            r@ == byte_chars(b@, pos as int, j as int),
        decreases len - j,
    {
        r.push(b[pos + j] as char);
        j = j + 1;
        assert(r@ =~= byte_chars(b@, pos as int, j as int));
    }
    r
}

fn is_alpha_char(c: char) -> (r: bool)
    ensures
        r == is_alpha(c),
{
    ('a' <= c && c <= 'z') || ('A' <= c && c <= 'Z')
}

fn is_digit_char(c: char) -> (r: bool)
    ensures
        r == is_digit(c),
{
    '0' <= c && c <= '9'
}

fn char_or_nul(b: &[u8], p: usize) -> (r: char)
    ensures
        r == char_at_or_nul(b@, p as int),
{
    if p < b.len() {
        b[p] as char
    } else {
        '\0'
    }
}

fn heuristic(b: &[u8], pos: usize) -> (r: Vec<char>)
    ensures
        r@ == heuristic_head(b@, pos as int),
{
    let n = b.len();
    assert(b@.len() == n);
    let c1 = char_or_nul(b, pos);
    let c2 = if pos < usize::MAX {
        char_or_nul(b, pos + 1)
    } else {
        '\0'
    };
    let c3 = if pos < usize::MAX - 1 {
        char_or_nul(b, pos + 2)
    } else {
        '\0'
    };
    let mut head: Vec<char> = Vec::new();
    if is_alpha_char(c1) && is_alpha_char(c2) && is_alpha_char(c3) {
        head.push(c1);
        head.push(c2);
        head.push(c3);
    } else if is_alpha_char(c1) && (is_alpha_char(c2) || is_digit_char(c2) || c2 == '@') {
        head.push(c1);
        head.push(c2);
    } else if c1 != '\0' {
        head.push(c1);
    }
    assert(head@ =~= heuristic_head(b@, pos as int));
    head
}

/// Recognizes the opcode head after `leader` at byte offset `pos` (see
/// [`spec_recognize`]).
pub fn recognize_opcode(tables: Option<&ParserTables>, leader: char, b: &[u8], pos: usize) -> (r: Vec<char>)
    requires
        opt_tables_wf(opt_tables(tables)),
        pos <= b.len(),
    ensures
        r@ == spec_recognize(opt_tables(tables), leader, b@, pos as int),
        r@.len() <= 3,
{
    let ghost t = opt_tables(tables);
    proof {
        lemma_cand_len_bound(b@, pos as int, 0);
    }
    if let Some(l) = trie_match_exec(tables, leader, b, pos) {
        proof {
            lemma_trie_match_in_bounds(t, leader, b@, pos as int);
        }
        return bytes_to_chars(b, pos, l);
    }
    if let Some(tt) = tables {
        let cl = cand_len_exec(b, pos);
        assert(pos + cl <= b.len());
        let cand = bytes_to_chars(b, pos, cl);
        let mut l: usize = cl;
        while l > 0
            invariant
                l <= cl,
                pos + cl <= b.len(),
                cl as int == cand_len(b@, pos as int, 0),
                cl <= 3,
                trie_match(t, leader, b@, pos as int) is None,
                cand@ == byte_chars(b@, pos as int, cl as int),
                t == Some(*tt),
                t == opt_tables(tables),
                longest_known(*tt, leader, cand@, cl as int) == longest_known(
                    *tt,
                    leader,
                    cand@,
                    l as int,
                ),
            decreases l,
        {
            let mut code: Vec<char> = Vec::new();
            code.push(leader);
            let mut j: usize = 0;
            while j < l
                invariant
                    j <= l <= cl == cand@.len(),
                    code@ == seq![leader] + cand@.take(j as int),
                decreases l - j,
            {
                code.push(cand[j]);
                j = j + 1;
                assert(code@ =~= seq![leader] + cand@.take(j as int));
            }
            let code_str = string_from_chars(&code);
            if tt.is_known_code(code_str.as_str()) {
                assert(spec_known(*tt, seq![leader] + cand@.take(l as int)));
                assert(longest_known(*tt, leader, cand@, l as int) == Some(l as int));
                let r = bytes_to_chars(b, pos, l);
                assert(longest_known(*tt, leader, byte_chars(b@, pos as int, cand_len(b@, pos as int, 0)), cand_len(b@, pos as int, 0)) == Some(l as int));
                assert(spec_recognize(t, leader, b@, pos as int) == byte_chars(b@, pos as int, l as int));
                return r;
            }
            l = l - 1;
        }
    }
    heuristic(b, pos)
}

proof fn lemma_trie_scan_in_bounds(tr: OpcodeTrie, n: int, b: Seq<u8>, pos: int, k: int, last: Option<int>)
    requires
        0 <= k <= 3,
        last matches Some(l) ==> 0 <= l <= k && pos + l <= b.len(),
        pos >= 0,
    ensures
        trie_scan(tr, n, b, pos, k, last) matches Some(l) ==> 0 <= l <= 3 && pos + l <= b.len(),
    decreases 3 - k,
{
    if !(k >= 3 || pos + k >= b.len() || pos + k < 0 || n < 0 || n >= tr.nodes@.len()) {
        match child_node(tr, n, b[pos + k] as char) {
            Some(m) => if 0 <= m < tr.nodes@.len() {
                lemma_trie_scan_in_bounds(
                    tr,
                    m,
                    b,
                    pos,
                    k + 1,
                    if tr.nodes@[m].terminal {
                        Some(k + 1)
                    } else {
                        last
                    },
                );
            },
            None => {},
        }
    }
}

proof fn lemma_cand_len_bound(b: Seq<u8>, pos: int, k: int)
    requires
        0 <= k <= 3,
    ensures
        0 <= cand_len(b, pos, k) <= 3 - k,
    decreases 3 - k,
{
    if !(k >= 3 || pos + k >= b.len() || pos + k < 0 || !is_code_byte(b[pos + k])) {
        lemma_cand_len_bound(b, pos, k + 1);
    }
}

proof fn lemma_trie_match_in_bounds(t: Option<ParserTables>, leader: char, b: Seq<u8>, pos: int)
    requires
        pos >= 0,
    ensures
        trie_match(t, leader, b, pos) matches Some(l) ==> 0 <= l <= 3 && pos + l <= b.len(),
{
    if let Some(tt) = t {
        if let Some(tr) = tt.opcode_trie {
            if let Some(ln) = child_node(tr, 0, leader) {
                lemma_trie_scan_in_bounds(tr, ln, b, pos, 0, None);
            }
        }
    }
}

} // verus!
