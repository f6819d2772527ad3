//! What a SARIF log reports of diagnostics: result levels, source regions
//! with one-based lines and columns, and the rules the results refer to.

use crate::coverage::{lemma_lt_irreflexive, lemma_lt_total, lemma_lt_transitive, seq_lt, str_lt};
use crate::diag::{Diagnostic, Severity, Span};
use crate::plan::no_dups;
use crate::predicates::{contains_code, seq_has};
use crate::text::{byte_slice, chars_of, owned};
use vstd::prelude::*;
use vstd::string::*;
use vstd::utf8::*;

verus! {

broadcast use {vstd::seq::group_seq_axioms, vstd::seq_lib::group_to_multiset_ensures};

/// The SARIF level of a severity.
pub open spec fn sarif_level_of(s: Severity) -> Seq<char> {
    match s {
        Severity::Error => "error"@,
        Severity::Warn => "warning"@,
        Severity::Info => "note"@,
    }
}

/// The SARIF level of a severity: `error`, `warning` or `note`.
pub fn sarif_level(s: Severity) -> (r: &'static str)
    ensures
        r@ == sarif_level_of(s),
{
    match s {
        Severity::Error => "error",
        Severity::Warn => "warning",
        Severity::Info => "note",
    }
}

/// The number of line feeds in `b`.
pub open spec fn newlines(b: Seq<u8>) -> nat
    decreases b.len(),
{
    if b.len() == 0 {
        0
    } else {
        newlines(b.drop_last()) + if b.last() == 10 {
            1nat
        } else {
            0nat
        }
    }
}

/// Where the last line of `b` starts: just after its last line feed, or 0.
pub open spec fn last_line_start(b: Seq<u8>) -> nat
    decreases b.len(),
{
    if b.len() == 0 {
        0
    } else if b.last() == 10 {
        b.len()
    } else {
        last_line_start(b.drop_last())
    }
}

/// The zero-based line and byte column of offset `off` in `b`.
pub open spec fn line_col(b: Seq<u8>, off: int) -> (nat, nat) {
    (newlines(b.take(off)), (off - last_line_start(b.take(off))) as nat)
}

/// The zero-based line and byte column of `offset` in `source`.
pub fn line_col_of(source: &str, offset: usize) -> (r: (usize, usize))
    requires
        offset <= source.spec_bytes().len(),
    ensures
        (r.0 as nat, r.1 as nat) == line_col(source.spec_bytes(), offset as int),
        r.0 <= offset,
        r.1 <= offset,
{
    let b = source.as_bytes();
    let mut line: usize = 0;
    let mut start: usize = 0;
    let mut i: usize = 0;
    while i < offset
        invariant
            i <= offset <= b@.len(),
            b@ == source.spec_bytes(),
            line == newlines(b@.take(i as int)),
            start == last_line_start(b@.take(i as int)),
            line <= i,
            start <= i,
        decreases offset - i,
    {
        proof {
            assert(b@.take(i + 1).drop_last() =~= b@.take(i as int));
            assert(b@.take(i + 1).last() == b@[i as int]);
        }
        if b[i] == 10 {
            line = line + 1;
            start = i + 1;
        }
        i = i + 1;
    }
    (line, offset - start)
}

/// The region of a SARIF result: the span clamped to the source, its byte
/// offset and length, one-based lines and columns, and the spanned text
/// when the span is non-empty and lies on character boundaries.
#[derive(Debug, Clone)]
pub struct SarifRegion {
    pub byte_offset: usize,
    pub byte_length: usize,
    pub start_line: usize,
    pub start_column: usize,
    pub end_line: usize,
    pub end_column: usize,
    pub snippet: Option<String>,
}

/// The clamped start and end of a span in a source of `n` bytes.
pub open spec fn clamped(span: Span, n: int) -> (int, int) {
    let start = if span.start < n {
        span.start as int
    } else {
        n
    };
    let end0 = if span.end < n {
        span.end as int
    } else {
        n
    };
    (start, if end0 < start {
        start
    } else {
        end0
    })
}

/// The region a SARIF result gives for `span` in a source with bytes `b`.
pub open spec fn region_ok(r: SarifRegion, b: Seq<u8>, span: Span) -> bool {
    let (start, end) = clamped(span, b.len() as int);
    &&& r.byte_offset == start
    &&& r.byte_length == end - start
    &&& r.start_line == line_col(b, start).0 + 1
    &&& r.start_column == line_col(b, start).1 + 1
    &&& r.end_line == line_col(b, end).0 + 1
    &&& r.end_column == line_col(b, end).1 + 1
    &&& (r.snippet is Some) == (start < end && is_char_boundary(b, start) && is_char_boundary(b, end))
    &&& r.snippet matches Some(t) ==> encode_utf8(t@) == b.subrange(start, end)
}

/// The region of a SARIF result for `span` in `source`.
pub fn sarif_region(source: &str, span: Span) -> (r: SarifRegion)
    requires
        source.spec_bytes().len() < usize::MAX,
    ensures
        region_ok(r, source.spec_bytes(), span),
{
    let n = source.as_bytes().len();
    let start = if span.start < n {
        span.start
    } else {
        n
    };
    let end0 = if span.end < n {
        span.end
    } else {
        n
    };
    let end = if end0 < start {
        start
    } else {
        end0
    };
    let (sl, sc) = line_col_of(source, start);
    let (el, ec) = line_col_of(source, end);
    let snippet = if start < end && source.is_char_boundary(start) && source.is_char_boundary(end) {
        Some(owned(byte_slice(source, start, end)))
    } else {
        None
    };
    SarifRegion {
        byte_offset: start,
        byte_length: end - start,
        start_line: sl + 1,
        start_column: sc + 1,
        end_line: el + 1,
        end_column: ec + 1,
        snippet,
    }
}

/// The index of the first diagnostic with identifier `id` among `ds`.
pub open spec fn first_with_id(ds: Seq<Diagnostic>, id: Seq<char>) -> Option<int>
    decreases ds.len(),
{
    if ds.len() == 0 {
        None
    } else {
        match first_with_id(ds.drop_last(), id) {
            Some(i) => Some(i),
            None => if ds.last().id@ == id {
                Some(ds.len() - 1)
            } else {
                None
            },
        }
    }
}

proof fn lemma_first_with_id_prefix(ds: Seq<Diagnostic>, id: Seq<char>, n: int)
    requires
        0 <= n <= ds.len(),
        first_with_id(ds.take(n), id) is Some,
    ensures
        first_with_id(ds, id) == first_with_id(ds.take(n), id),
    decreases ds.len() - n,
{
    if n < ds.len() {
        assert(ds.take(n + 1).drop_last() =~= ds.take(n));
        lemma_first_with_id_prefix(ds, id, n + 1);
    } else {
        assert(ds.take(n) =~= ds);
    }
}

proof fn lemma_first_with_id_valid(ds: Seq<Diagnostic>, id: Seq<char>)
    ensures
        first_with_id(ds, id) matches Some(i) ==> 0 <= i < ds.len() && ds[i].id@ == id,
        first_with_id(ds, id) is None ==> forall|k: int| 0 <= k < ds.len() ==> (#[trigger] ds[k]).id@ != id,
    decreases ds.len(),
{
    if ds.len() > 0 {
        lemma_first_with_id_valid(ds.drop_last(), id);
        assert forall|k: int| 0 <= k < ds.len() - 1 implies ds.drop_last()[k] == ds[k] by {}
    }
}

/// A rule of the SARIF log: an identifier with the message of its first
/// diagnostic as the rule's short description.
pub open spec fn is_rule_of(ds: Seq<Diagnostic>, rule: (Seq<char>, Seq<char>)) -> bool {
    first_with_id(ds, rule.0) matches Some(i) && rule.1 == ds[i].message@
}

/// The plain views of a list of rules.
pub open spec fn rules_view(v: Seq<(String, String)>) -> Seq<(Seq<char>, Seq<char>)> {
    v.map_values(|p: (String, String)| (p.0@, p.1@))
}

/// The rules of a SARIF log for `diagnostics`: one per identifier, with the
/// message of its first diagnostic, in order of identifier.
pub fn sarif_rules(diagnostics: &Vec<Diagnostic>) -> (r: Vec<(String, String)>)
    ensures
        forall|i: int, j: int| 0 <= i < j < r@.len() ==> seq_lt(#[trigger] r@[i].0@, #[trigger] r@[j].0@),
        forall|x: (Seq<char>, Seq<char>)| #[trigger] rules_view(r@).contains(x) <==> is_rule_of(diagnostics@, x),
{
    let ds = diagnostics;
    let mut ids: Vec<String> = Vec::new();
    let mut rules: Vec<(String, String)> = Vec::new();
    let mut i: usize = 0;
    while i < ds.len()
        invariant
            i <= ds@.len(),
            rules@.len() == ids@.len(),
            no_dups(ids@),
            forall|k: int| 0 <= k < ids@.len() ==> (#[trigger] rules@[k]).0@ == ids@[k]@,
            forall|x: Seq<char>| #[trigger] seq_has(ids@, x) <==> first_with_id(ds@.take(i as int), x) is Some,
            forall|k: int|
                0 <= k < rules@.len() ==> is_rule_of(ds@.take(i as int), #[trigger] rules_view(rules@)[k]),
        decreases ds.len() - i,
    {
        let d = &ds[i];
        let ghost pre = ds@.take(i as int);
        let ghost post = ds@.take(i + 1);
        proof {
            assert(post.drop_last() =~= pre);
            assert(post.last() == ds@[i as int]);
        }
        let idc = chars_of(d.id.as_str());
        let ghost old_ids = ids@;
        let ghost old_rules = rules@;
        if !contains_code(&ids, &idc) {
            ids.push(owned(d.id.as_str()));
            rules.push((owned(d.id.as_str()), owned(d.message.as_str())));
            proof {
                let n = old_ids.len() as int;
                assert(ids@ == old_ids.push(ids@[n]));
                assert(rules@ == old_rules.push(rules@[n]));
                assert(first_with_id(pre, d.id@) is None);
                assert(first_with_id(post, d.id@) == Some(i as int));
                assert forall|a: int, b: int| 0 <= a < b < ids@.len() implies (#[trigger] ids@[a])@ != (#[trigger] ids@[b])@ by {
                    if b == n {
                        assert(ids@[a] == old_ids[a]);
                    } else {
                        assert(ids@[a] == old_ids[a] && ids@[b] == old_ids[b]);
                    }
                }
                assert forall|x: Seq<char>| #[trigger] seq_has(ids@, x) <==> first_with_id(post, x) is Some by {
                    if seq_has(ids@, x) {
                        let k = choose|k: int| 0 <= k < ids@.len() && (#[trigger] ids@[k])@ == x;
                        if k < n {
                            assert(old_ids[k] == ids@[k]);
                            assert(seq_has(old_ids, x));
                        }
                    }
                    if first_with_id(post, x) is Some {
                        if first_with_id(pre, x) is Some {
                            assert(seq_has(old_ids, x));
                            let k = choose|k: int| 0 <= k < old_ids.len() && (#[trigger] old_ids[k])@ == x;
                            assert(ids@[k] == old_ids[k]);
                        } else {
                            assert(ids@[n]@ == x);
                        }
                    }
                }
                assert forall|k: int| 0 <= k < rules@.len() implies is_rule_of(post, #[trigger] rules_view(rules@)[k]) by {
                    if k < n {
                        assert(rules_view(rules@)[k] == rules_view(old_rules)[k]);
                        assert(is_rule_of(pre, rules_view(old_rules)[k]));
                        lemma_first_with_id_valid(pre, rules_view(old_rules)[k].0);
                    } else {
                        assert(rules_view(rules@)[k] == (d.id@, d.message@));
                    }
                }
            }
        } else {
            proof {
                let k0 = choose|k: int| 0 <= k < ids@.len() && (#[trigger] ids@[k])@ == d.id@;
                assert(seq_has(ids@, d.id@));
                assert(first_with_id(pre, d.id@) is Some);
                assert forall|x: Seq<char>| #[trigger] seq_has(ids@, x) <==> first_with_id(post, x) is Some by {
                    if first_with_id(pre, x) is None {
                        assert(x != d.id@);
                    }
                }
                assert forall|k: int| 0 <= k < rules@.len() implies is_rule_of(post, #[trigger] rules_view(rules@)[k]) by {
                    lemma_first_with_id_valid(pre, rules_view(rules@)[k].0);
                }
            }
        }
        i = i + 1;
    }
    proof {
        assert(ds@.take(ds@.len() as int) =~= ds@);
        assert forall|x: (Seq<char>, Seq<char>)| is_rule_of(ds@, x) implies #[trigger] rules_view(rules@).contains(x) by {
            assert(seq_has(ids@, x.0));
            let k = choose|k: int| 0 <= k < ids@.len() && (#[trigger] ids@[k])@ == x.0;
            assert(rules@[k].0@ == x.0);
            assert(is_rule_of(ds@, rules_view(rules@)[k]));
            assert(rules_view(rules@)[k] == x);
        }
        assert forall|x: (Seq<char>, Seq<char>)| #[trigger] rules_view(rules@).contains(x) implies is_rule_of(ds@, x) by {
            let k = choose|k: int| 0 <= k < rules_view(rules@).len() && #[trigger] rules_view(rules@)[k] == x;
        }
    }
    sort_rules(rules)
}

/// Sorts rules by identifier; the identifiers are distinct.
fn sort_rules(v: Vec<(String, String)>) -> (r: Vec<(String, String)>)
    requires
        forall|a: int, b: int| 0 <= a < b < v@.len() ==> (#[trigger] v@[a]).0@ != (#[trigger] v@[b]).0@,
    ensures
        forall|i: int, j: int| 0 <= i < j < r@.len() ==> seq_lt(#[trigger] r@[i].0@, #[trigger] r@[j].0@),
        forall|x: (Seq<char>, Seq<char>)| #[trigger] rules_view(r@).contains(x) <==> rules_view(v@).contains(x),
{
    let mut r: Vec<(String, String)> = Vec::new();
    let n = v.len();
    let mut i: usize = 0;
    while i < n
        invariant
            i <= n,
            n == v@.len(),
            forall|a: int, b: int| 0 <= a < b < v@.len() ==> (#[trigger] v@[a]).0@ != (#[trigger] v@[b]).0@,
            forall|a: int, b: int| 0 <= a < b < r@.len() ==> seq_lt(#[trigger] r@[a].0@, #[trigger] r@[b].0@),
            forall|x: (Seq<char>, Seq<char>)| #[trigger] rules_view(r@).contains(x) <==> rules_view(v@.take(i as int)).contains(x),
            forall|a: int| 0 <= a < r@.len() ==> exists|b: int| 0 <= b < i && (#[trigger] r@[a]).0@ == (#[trigger] v@[b]).0@,
        decreases n - i,
    {
        let id = owned(v[i].0.as_str());
        let msg = owned(v[i].1.as_str());
        let mut pos: usize = 0;
        while pos < r.len() && str_lt(r[pos].0.as_str(), id.as_str())
            invariant
                pos <= r@.len(),
                forall|k: int| 0 <= k < pos ==> seq_lt(#[trigger] r@[k].0@, id@),
            decreases r.len() - pos,
        {
            pos = pos + 1;
        }
        let ghost before = r@;
        let ghost item = (id@, msg@);
        proof {
            // The new identifier differs from every identifier placed so far.
            assert forall|a: int| 0 <= a < before.len() implies before[a].0@ != id@ by {
                let b = choose|b: int| 0 <= b < i && before[a].0@ == (#[trigger] v@[b]).0@;
                assert(v@[b].0@ != v@[i as int].0@);
            }
        }
        r.insert(pos, (id, msg));
        proof {
            assert(r@ =~= before.insert(pos as int, r@[pos as int]));
            assert forall|a: int, b: int| 0 <= a < b < r@.len() implies seq_lt(#[trigger] r@[a].0@, #[trigger] r@[b].0@) by {
                if b < pos {
                    assert(r@[a] == before[a] && r@[b] == before[b]);
                } else if b == pos {
                    assert(r@[a] == before[a]);
                } else if a < pos {
                    assert(r@[a] == before[a] && r@[b] == before[b - 1]);
                } else if a == pos {
                    assert(r@[b] == before[b - 1]);
                    lemma_lt_total(before[pos as int].0@, item.0);
                    if b - 1 > pos {
                        lemma_lt_transitive(item.0, before[pos as int].0@, before[b - 1].0@);
                    }
                } else {
                    assert(r@[a] == before[a - 1] && r@[b] == before[b - 1]);
                }
            }
            assert(v@.take(i + 1) =~= v@.take(i as int).push(v@[i as int]));
            assert(rules_view(v@.take(i + 1)) =~= rules_view(v@.take(i as int)).push(item));
            assert(rules_view(r@) =~= rules_view(before).insert(pos as int, item));
            assert forall|x: (Seq<char>, Seq<char>)| #[trigger] rules_view(r@).contains(x) <==> rules_view(v@.take(i + 1)).contains(x) by {
                if rules_view(r@).contains(x) {
                    let k = choose|k: int| 0 <= k < rules_view(r@).len() && #[trigger] rules_view(r@)[k] == x;
                    if k == pos {
                        assert(rules_view(v@.take(i + 1))[i as int] == x);
                    } else {
                        if k < pos {
                            assert(rules_view(before)[k] == x);
                        } else {
                            assert(rules_view(before)[k - 1] == x);
                        }
                        assert(rules_view(before).contains(x));
                        assert(rules_view(v@.take(i as int)).contains(x));
                        let j = choose|j: int| 0 <= j < rules_view(v@.take(i as int)).len() && #[trigger] rules_view(v@.take(i as int))[j] == x;
                        assert(rules_view(v@.take(i + 1))[j] == x);
                    }
                }
                if rules_view(v@.take(i + 1)).contains(x) {
                    let k = choose|k: int| 0 <= k < rules_view(v@.take(i + 1)).len() && #[trigger] rules_view(v@.take(i + 1))[k] == x;
                    if k < i {
                        assert(rules_view(v@.take(i as int))[k] == x);
                        assert(rules_view(v@.take(i as int)).contains(x));
                        assert(rules_view(before).contains(x));
                        let j = choose|j: int| 0 <= j < rules_view(before).len() && #[trigger] rules_view(before)[j] == x;
                        if j < pos {
                            assert(rules_view(r@)[j] == x);
                        } else {
                            assert(rules_view(r@)[j + 1] == x);
                        }
                    } else {
                        assert(rules_view(r@)[pos as int] == x);
                    }
                }
            }
            assert forall|a: int| 0 <= a < r@.len() implies exists|b: int| 0 <= b < i + 1 && (#[trigger] r@[a]).0@ == (#[trigger] v@[b]).0@ by {
                if a < pos {
                    assert(r@[a] == before[a]);
                } else if a > pos {
                    assert(r@[a] == before[a - 1]);
                } else {
                    assert(r@[a].0@ == v@[i as int].0@);
                }
            }
        }
        i = i + 1;
    }
    assert(v@.take(n as int) =~= v@);
    r
}

} // verus!
