//! Summaries of a spec-coverage report: the totals it states, how often
//! each field is missing across codes, and the codes whose specs have
//! validation errors, most affected first.

use crate::label_state::{keys_distinct, lemma_lookup_absent, lemma_lookup_at, lookup, pair_get, pair_set, pairs_view};
use crate::state::{all_digits, is_ascii_digit, lemma_decimal_digits};
use crate::text::{append_str, chars_of, decimal, owned, str_eq, usize_to_decimal};
use vstd::prelude::*;

verus! {

broadcast use {vstd::seq::group_seq_axioms, vstd::seq_lib::group_to_multiset_ensures};

// ---------------------------------------------------------------------------
// The report and its totals
// ---------------------------------------------------------------------------

/// What a coverage report states, as plain values.
#[derive(Debug, Clone)]
pub struct CoverageReport {
    /// Number of codes in the master list.
    pub master_total: Option<u64>,
    /// Number of codes present in the spec, as a count field.
    pub present_in_spec_count: Option<u64>,
    /// Number of codes present in the spec, as the older plain field.
    pub present_in_spec: Option<u64>,
    /// Number of codes missing from the spec, as a count field.
    pub missing_in_spec_count: Option<u64>,
    /// Length of the list of codes missing from the spec.
    pub missing_in_spec_len: Option<u64>,
    /// Codes with a signature.
    pub with_signature: Option<u64>,
    /// Codes with argument specs.
    pub with_args: Option<u64>,
    /// Codes with constraints.
    pub with_constraints: Option<u64>,
    /// Codes with documentation.
    pub with_docs: Option<u64>,
    /// For each present code, the fields its spec lacks.
    pub missing_by_code: Option<Vec<Vec<String>>>,
    /// The codes whose specs have validation errors, with the errors.
    pub code_issues: Vec<(String, Vec<String>)>,
}

/// The totals a coverage summary shows.
#[derive(Debug, Clone, Copy, PartialEq, Eq, Structural)]
pub struct CoverageTotals {
    pub master_total: u64,
    pub present: u64,
    pub missing: u64,
    pub with_signature: u64,
    pub with_args: u64,
    pub with_constraints: u64,
    pub with_docs: u64,
}

/// The value of an optional count, zero when absent.
pub open spec fn or_zero(v: Option<u64>) -> u64 {
    match v {
        Some(x) => x,
        None => 0,
    }
}

/// The first of two optional counts that is present, zero when neither is.
pub open spec fn first_or_zero(a: Option<u64>, b: Option<u64>) -> u64 {
    match a {
        Some(x) => x,
        None => or_zero(b),
    }
}

fn zero_if_none(v: Option<u64>) -> (r: u64)
    ensures
        r == or_zero(v),
{
    match v {
        Some(x) => x,
        None => 0,
    }
}

/// The totals of a report: the present and missing counts from their count
/// fields, else from the older fields; absent counts are zero.
pub fn coverage_totals(report: &CoverageReport) -> (t: CoverageTotals)
    ensures
        t == (CoverageTotals {
            master_total: or_zero(report.master_total),
            present: first_or_zero(report.present_in_spec_count, report.present_in_spec),
            missing: first_or_zero(report.missing_in_spec_count, report.missing_in_spec_len),
            with_signature: or_zero(report.with_signature),
            with_args: or_zero(report.with_args),
            with_constraints: or_zero(report.with_constraints),
            with_docs: or_zero(report.with_docs),
        }),
{
    let present = match report.present_in_spec_count {
        Some(x) => x,
        None => zero_if_none(report.present_in_spec),
    };
    let missing = match report.missing_in_spec_count {
        Some(x) => x,
        None => zero_if_none(report.missing_in_spec_len),
    };
    CoverageTotals {
        master_total: zero_if_none(report.master_total),
        present,
        missing,
        with_signature: zero_if_none(report.with_signature),
        with_args: zero_if_none(report.with_args),
        with_constraints: zero_if_none(report.with_constraints),
        with_docs: zero_if_none(report.with_docs),
    }
}

// ---------------------------------------------------------------------------
// Lexicographic order of strings
// ---------------------------------------------------------------------------

/// `a` comes strictly before `b` in lexicographic order of code points.
pub open spec fn seq_lt(a: Seq<char>, b: Seq<char>) -> bool
    decreases a.len(),
{
    if a.len() == 0 {
        b.len() > 0
    } else if b.len() == 0 {
        false
    } else if a[0] != b[0] {
        a[0] < b[0]
    } else {
        seq_lt(a.drop_first(), b.drop_first())
    }
}

/// Nothing comes before itself.
pub proof fn lemma_lt_irreflexive(a: Seq<char>)
    ensures
        !seq_lt(a, a),
    decreases a.len(),
{
    if a.len() > 0 {
        lemma_lt_irreflexive(a.drop_first());
    }
}

/// The order is transitive.
pub proof fn lemma_lt_transitive(a: Seq<char>, b: Seq<char>, c: Seq<char>)
    requires
        seq_lt(a, b),
        seq_lt(b, c),
    ensures
        seq_lt(a, c),
    decreases a.len(),
{
    if a.len() > 0 && b.len() > 0 && c.len() > 0 && a[0] == b[0] && b[0] == c[0] {
        lemma_lt_transitive(a.drop_first(), b.drop_first(), c.drop_first());
    }
}

/// Of two different strings, one comes before the other.
pub proof fn lemma_lt_total(a: Seq<char>, b: Seq<char>)
    ensures
        a == b || seq_lt(a, b) || seq_lt(b, a),
    decreases a.len(),
{
    if a.len() > 0 && b.len() > 0 && a[0] == b[0] {
        lemma_lt_total(a.drop_first(), b.drop_first());
        if a.drop_first() == b.drop_first() {
            assert(a =~= seq![a[0]] + a.drop_first());
            assert(b =~= seq![b[0]] + b.drop_first());
        }
    } else if a.len() == 0 && b.len() == 0 {
        assert(a =~= b);
    }
}

/// Whether `a` comes strictly before `b` (see [`seq_lt`]).
pub fn str_lt(a: &str, b: &str) -> (r: bool)
    ensures
        r == seq_lt(a@, b@),
{
    let x = chars_of(a);
    let y = chars_of(b);
    let mut i: usize = 0;
    assert(x@.skip(0) =~= x@);
    assert(y@.skip(0) =~= y@);
    while i < x.len() && i < y.len() && x[i] == y[i]
        invariant
            i <= x@.len(),
            i <= y@.len(),
            x@.take(i as int) == y@.take(i as int),
            seq_lt(x@, y@) == seq_lt(x@.skip(i as int), y@.skip(i as int)),
        decreases x.len() - i,
    {
        proof {
            let xs = x@.skip(i as int);
            let ys = y@.skip(i as int);
            assert(xs.drop_first() =~= x@.skip(i + 1));
            assert(ys.drop_first() =~= y@.skip(i + 1));
            assert(x@.take(i + 1) =~= x@.take(i as int).push(x@[i as int]));
            assert(y@.take(i + 1) =~= y@.take(i as int).push(y@[i as int]));
        }
        i = i + 1;
    }
    if i == x.len() {
        proof {
            assert(x@.skip(i as int).len() == 0);
        }
        i < y.len()
    } else if i == y.len() {
        false
    } else {
        proof {
            assert(x@.skip(i as int)[0] == x@[i as int]);
            assert(y@.skip(i as int)[0] == y@[i as int]);
        }
        x[i] < y[i]
    }
}

/// No element comes strictly before an earlier one.
pub open spec fn sorted_strs(s: Seq<Seq<char>>) -> bool {
    forall|i: int, j: int| 0 <= i < j < s.len() ==> !seq_lt(#[trigger] s[j], #[trigger] s[i])
}

/// The plain views of a list of strings.
pub open spec fn views(v: Seq<String>) -> Seq<Seq<char>> {
    v.map_values(|s: String| s@)
}

/// Sorts strings in lexicographic order.
pub fn sort_strings(v: Vec<String>) -> (r: Vec<String>)
    ensures
        sorted_strs(views(r@)),
        views(r@).to_multiset() == views(v@).to_multiset(),
{
    let mut r: Vec<String> = Vec::new();
    let mut i: usize = 0;
    let n = v.len();
    assert(views(v@).take(0) =~= Seq::<Seq<char>>::empty());
    assert(views(r@) =~= Seq::<Seq<char>>::empty());
    while i < n
        invariant
            i <= n,
            n == v@.len(),
            sorted_strs(views(r@)),
            views(r@).to_multiset() == views(v@).take(i as int).to_multiset(),
        decreases n - i,
    {
        let item = owned(v[i].as_str());
        let mut pos: usize = 0;
        while pos < r.len() && !str_lt(item.as_str(), r[pos].as_str())
            invariant
                pos <= r@.len(),
                forall|k: int| 0 <= k < pos ==> !seq_lt(item@, #[trigger] r@[k]@),
            decreases r.len() - pos,
        {
            pos = pos + 1;
        }
        let ghost before = views(r@);
        r.insert(pos, item);
        proof {
            let after = views(r@);
            assert(after =~= before.insert(pos as int, item@));
            assert(views(v@).take(i + 1) =~= views(v@).take(i as int).push(item@));
            assert forall|a: int, b: int| 0 <= a < b < after.len() implies !seq_lt(#[trigger] after[b], #[trigger] after[a]) by {
                if b < pos {
                    assert(after[a] == before[a] && after[b] == before[b]);
                } else if b == pos {
                    assert(after[a] == before[a]);
                    assert(!seq_lt(item@, before[a]));
                } else if a < pos {
                    assert(after[a] == before[a] && after[b] == before[b - 1]);
                } else if a == pos {
                    assert(after[b] == before[b - 1]);
                    if pos < before.len() {
                        assert(seq_lt(item@, before[pos as int]));
                        if b - 1 > pos {
                            assert(!seq_lt(before[b - 1], before[pos as int]));
                        }
                        if seq_lt(before[b - 1], item@) {
                            lemma_lt_transitive(before[b - 1], item@, before[pos as int]);
                            if b - 1 == pos {
                                lemma_lt_irreflexive(before[pos as int]);
                            }
                        }
                    }
                } else {
                    assert(after[a] == before[a - 1] && after[b] == before[b - 1]);
                }
            }
        }
        i = i + 1;
    }
    assert(views(v@).take(n as int) =~= views(v@));
    r
}

// ---------------------------------------------------------------------------
// Missing fields across codes
// ---------------------------------------------------------------------------

/// All items of the lists, list by list.
pub open spec fn flat_items(lists: Seq<Vec<String>>) -> Seq<Seq<char>>
    decreases lists.len(),
{
    if lists.len() == 0 {
        seq![]
    } else {
        flat_items(lists.drop_last()) + views(lists.last()@)
    }
}

/// How often `k` occurs among the items.
pub open spec fn occurrences(items: Seq<Seq<char>>, k: Seq<char>) -> nat {
    items.to_multiset().count(k)
}

/// A field and its count, as the summary shows it: `field:count`.
pub open spec fn count_part(k: Seq<char>, c: nat) -> Seq<char> {
    k + ":"@ + decimal(c)
}

/// `field:count` determines the field.
proof fn lemma_count_part_injective(k1: Seq<char>, c1: nat, k2: Seq<char>, c2: nat)
    requires
        count_part(k1, c1) == count_part(k2, c2),
    ensures
        k1 == k2,
{
    reveal_strlit(":");
    lemma_decimal_digits(c1);
    lemma_decimal_digits(c2);
    let s = count_part(k1, c1);
    let d1 = decimal(c1);
    let d2 = decimal(c2);
    assert(s =~= k1 + seq![':'] + d1);
    assert(s =~= k2 + seq![':'] + d2);
    if k1.len() < k2.len() {
        let p = k2.len() as int;
        assert(s[p] == ':');
        assert(s[p] == d1[p - k1.len() - 1]);
        assert(is_ascii_digit(d1[p - k1.len() - 1]));
    } else if k2.len() < k1.len() {
        let p = k1.len() as int;
        assert(s[p] == ':');
        assert(s[p] == d2[p - k2.len() - 1]);
        assert(is_ascii_digit(d2[p - k2.len() - 1]));
    } else {
        assert(k1 =~= s.take(k1.len() as int));
        assert(k2 =~= s.take(k2.len() as int));
    }
}

/// The summary of missing fields: each field that some code lacks, with
/// the number of times it is missing, as `field:count`, in lexicographic
/// order (each once).
pub fn missing_field_parts(lists: &Vec<Vec<String>>) -> (r: Vec<String>)
    requires
        flat_items(lists@).len() <= usize::MAX,
    ensures
        forall|i: int, j: int| 0 <= i < j < r@.len() ==> seq_lt(#[trigger] r@[i]@, #[trigger] r@[j]@),
        forall|x: Seq<char>| #[trigger] views(r@).contains(x) <==> exists|k: Seq<char>|
            flat_items(lists@).contains(k) && x == count_part(k, occurrences(flat_items(lists@), k)),
{
    let mut acc: Vec<(String, usize)> = Vec::new();
    let ghost mut done: Seq<Seq<char>> = seq![];
    let mut li: usize = 0;
    assert(flat_items(lists@.take(0)) =~= seq![]);
    assert forall|q: Seq<char>| #[trigger] lookup(pairs_view(acc@), q) == if done.contains(q) {
        Some(occurrences(done, q) as usize)
    } else {
        None
    } by {
        assert(pairs_view(acc@) =~= seq![]);
    }
    while li < lists.len()
        invariant
            li <= lists@.len(),
            done == flat_items(lists@.take(li as int)),
            flat_items(lists@).len() <= usize::MAX,
            done.len() <= flat_items(lists@).len(),
            keys_distinct(pairs_view(acc@)),
            forall|q: Seq<char>| #[trigger] lookup(pairs_view(acc@), q) == if done.contains(q) {
                Some(occurrences(done, q) as usize)
            } else {
                None
            },
            forall|q: Seq<char>| done.contains(q) ==> occurrences(done, q) <= done.len(),
        decreases lists.len() - li,
    {
        let list = &lists[li];
        let ghost start = done;
        let mut ii: usize = 0;
        proof {
            lemma_flat_prefix(lists@, li as int);
        }
        while ii < list.len()
            invariant
                ii <= list@.len(),
                done == start + views(list@).take(ii as int),
                start.len() + list@.len() <= flat_items(lists@).len(),
                flat_items(lists@).len() <= usize::MAX,
                keys_distinct(pairs_view(acc@)),
                forall|q: Seq<char>| #[trigger] lookup(pairs_view(acc@), q) == if done.contains(q) {
                    Some(occurrences(done, q) as usize)
                } else {
                    None
                },
                forall|q: Seq<char>| done.contains(q) ==> occurrences(done, q) <= done.len(),
            decreases list.len() - ii,
        {
            let item = list[ii].as_str();
            let ghost before = done;
            let c: usize = match pair_get(&acc, item) {
                Some(c) => c + 1,
                None => 1,
            };
            pair_set(&mut acc, item, c);
            proof {
                done = before.push(item@);
                assert(start + views(list@).take(ii + 1) =~= done);
                assert forall|q: Seq<char>| #[trigger] lookup(pairs_view(acc@), q) == if done.contains(q) {
                    Some(occurrences(done, q) as usize)
                } else {
                    None
                } by {
                    assert(done.to_multiset() == before.to_multiset().insert(item@));
                    if q == item@ {
                        assert(done[done.len() - 1] == q);
                        if before.contains(q) {
                        } else {
                            assert(before.to_multiset().count(q) == 0) by {
                                if before.to_multiset().count(q) > 0 {
                                    assert(before.contains(q));
                                }
                            }
                        }
                    } else {
                        if done.contains(q) {
                            let j = choose|j: int| 0 <= j < done.len() && done[j] == q;
                            assert(j < before.len());
                            assert(before[j] == q);
                        }
                        if before.contains(q) {
                            let j = choose|j: int| 0 <= j < before.len() && before[j] == q;
                            assert(done[j] == q);
                        }
                    }
                }
                assert forall|q: Seq<char>| done.contains(q) implies occurrences(done, q) <= done.len() by {
                    assert(done.to_multiset() == before.to_multiset().insert(item@));
                    if before.contains(q) {
                    } else if q != item@ {
                        let j = choose|j: int| 0 <= j < done.len() && done[j] == q;
                        assert(before[j] == q);
                    } else {
                        assert(before.to_multiset().count(q) == 0) by {
                            if before.to_multiset().count(q) > 0 {
                                assert(before.contains(q));
                            }
                        }
                    }
                }
            }
            ii = ii + 1;
        }
        proof {
            assert(views(list@).take(list@.len() as int) =~= views(list@));
            assert(lists@.take(li + 1).drop_last() =~= lists@.take(li as int));
            assert(lists@.take(li + 1).last() == lists@[li as int]);
        }
        li = li + 1;
    }
    proof {
        assert(lists@.take(lists@.len() as int) =~= lists@);
    }
    let ghost flat = done;
    let mut parts: Vec<String> = Vec::new();
    let mut pi: usize = 0;
    while pi < acc.len()
        invariant
            pi <= acc@.len(),
            parts@.len() == pi,
            forall|j: int| 0 <= j < pi ==> (#[trigger] parts@[j])@ == count_part(acc@[j].0@, acc@[j].1 as nat),
        decreases acc.len() - pi,
    {
        let mut p = owned(acc[pi].0.as_str());
        append_str(&mut p, ":");
        append_str(&mut p, usize_to_decimal(acc[pi].1).as_str());
        parts.push(p);
        pi = pi + 1;
    }
    let ghost pv = pairs_view(acc@);
    proof {
        assert forall|j: int| 0 <= j < pv.len() implies pv[j].0 == acc@[j].0@ && pv[j].1 == acc@[j].1 by {}
        // Each part is `field:count` for a field among the items, and each such field has its part.
        assert forall|x: Seq<char>| #[trigger] views(parts@).contains(x) <==> exists|k: Seq<char>|
            flat.contains(k) && x == count_part(k, occurrences(flat, k)) by {
            if views(parts@).contains(x) {
                let j = choose|j: int| 0 <= j < views(parts@).len() && views(parts@)[j] == x;
                lemma_lookup_at(pv, j);
                assert(lookup(pv, pv[j].0) == Some(pv[j].1));
                assert(flat.contains(pv[j].0));
                assert(x == count_part(pv[j].0, occurrences(flat, pv[j].0)));
            }
            if exists|k: Seq<char>| flat.contains(k) && x == count_part(k, occurrences(flat, k)) {
                let k = choose|k: Seq<char>| flat.contains(k) && x == count_part(k, occurrences(flat, k));
                assert(lookup(pv, k) is Some);
                if !(exists|j: int| 0 <= j < pv.len() && pv[j].0 == k) {
                    lemma_lookup_absent(pv, k);
                }
                let j = choose|j: int| 0 <= j < pv.len() && pv[j].0 == k;
                lemma_lookup_at(pv, j);
                assert(views(parts@)[j] == x);
            }
        }
        // The parts are distinct, as the fields are.
        assert(views(parts@).no_duplicates()) by {
            assert forall|a: int, b: int| 0 <= a < views(parts@).len() && 0 <= b < views(parts@).len() && a != b
                implies views(parts@)[a] != views(parts@)[b] by {
                if views(parts@)[a] == views(parts@)[b] {
                    lemma_count_part_injective(pv[a].0, pv[a].1 as nat, pv[b].0, pv[b].1 as nat);
                }
            }
        }
        views(parts@).lemma_multiset_has_no_duplicates();
    }
    let ghost pview = views(parts@);
    let r = sort_strings(parts);
    proof {
        let rv = views(r@);
        assert forall|x: Seq<char>| rv.to_multiset().contains(x) implies rv.to_multiset().count(x) == 1 by {
            assert(pview.to_multiset().contains(x));
        }
        rv.lemma_multiset_has_no_duplicates_conv();
        assert forall|i: int, j: int| 0 <= i < j < r@.len() implies seq_lt(#[trigger] r@[i]@, #[trigger] r@[j]@) by {
            assert(rv[i] == r@[i]@ && rv[j] == r@[j]@);
            lemma_lt_total(rv[i], rv[j]);
        }
        assert forall|x: Seq<char>| #[trigger] rv.contains(x) <==> pview.contains(x) by {
            assert(rv.contains(x) <==> rv.to_multiset().count(x) > 0);
            assert(pview.contains(x) <==> pview.to_multiset().count(x) > 0);
        }
    }
    r
}

/// The items of the first `n` lists come first among all items.
proof fn lemma_flat_prefix(lists: Seq<Vec<String>>, n: int)
    requires
        0 <= n < lists.len(),
    ensures
        flat_items(lists.take(n)).len() + lists[n]@.len() <= flat_items(lists).len(),
    decreases lists.len() - n,
{
    assert(lists.take(n + 1).drop_last() =~= lists.take(n));
    assert(lists.take(n + 1).last() == lists[n]);
    if n + 1 < lists.len() {
        lemma_flat_prefix(lists, n + 1);
    } else {
        assert(lists.take(n + 1) =~= lists);
    }
    lemma_flat_grows(lists, n + 1);
}

/// Longer prefixes of the lists hold at least as many items.
proof fn lemma_flat_grows(lists: Seq<Vec<String>>, n: int)
    requires
        0 <= n <= lists.len(),
    ensures
        flat_items(lists.take(n)).len() <= flat_items(lists).len(),
    decreases lists.len() - n,
{
    if n < lists.len() {
        assert(lists.take(n + 1).drop_last() =~= lists.take(n));
        lemma_flat_grows(lists, n + 1);
    } else {
        assert(lists.take(n) =~= lists);
    }
}

// ---------------------------------------------------------------------------
// Codes with validation errors
// ---------------------------------------------------------------------------

/// `a` ranks before `b`: more errors first, then the code in lexicographic
/// order.
pub open spec fn ranks_before(a: (Seq<char>, usize), b: (Seq<char>, usize)) -> bool {
    a.1 > b.1 || (a.1 == b.1 && seq_lt(a.0, b.0))
}

/// No entry ranks before an earlier one.
pub open spec fn ranked(s: Seq<(Seq<char>, usize)>) -> bool {
    forall|i: int, j: int| 0 <= i < j < s.len() ==> !ranks_before(#[trigger] s[j], #[trigger] s[i])
}

/// Each code with the number of its errors.
pub open spec fn error_counts(issues: Seq<(String, Vec<String>)>) -> Seq<(Seq<char>, usize)> {
    issues.map_values(|e: (String, Vec<String>)| (e.0@, e.1@.len() as usize))
}

proof fn lemma_rank_transitive(a: (Seq<char>, usize), b: (Seq<char>, usize), c: (Seq<char>, usize))
    requires
        ranks_before(a, b),
        ranks_before(b, c),
    ensures
        ranks_before(a, c),
{
    if a.1 == b.1 && b.1 == c.1 {
        lemma_lt_transitive(a.0, b.0, c.0);
    }
}

proof fn lemma_rank_irreflexive(a: (Seq<char>, usize))
    ensures
        !ranks_before(a, a),
{
    lemma_lt_irreflexive(a.0);
}

/// Each code with its number of errors, most errors first and codes in
/// lexicographic order among equals.
pub fn rank_error_counts(issues: &Vec<(String, Vec<String>)>) -> (r: Vec<(String, usize)>)
    ensures
        ranked(pairs_view(r@)),
        pairs_view(r@).to_multiset() == error_counts(issues@).to_multiset(),
{
    let mut r: Vec<(String, usize)> = Vec::new();
    let n = issues.len();
    let mut i: usize = 0;
    assert(error_counts(issues@).take(0) =~= Seq::<(Seq<char>, usize)>::empty());
    assert(pairs_view(r@) =~= Seq::<(Seq<char>, usize)>::empty());
    while i < n
        invariant
            i <= n,
            n == issues@.len(),
            ranked(pairs_view(r@)),
            pairs_view(r@).to_multiset() == error_counts(issues@).take(i as int).to_multiset(),
        decreases n - i,
    {
        let code = owned(issues[i].0.as_str());
        let count = issues[i].1.len();
        let ghost item = (code@, count);
        let mut pos: usize = 0;
        while pos < r.len() && !(count > r[pos].1 || (count == r[pos].1 && str_lt(code.as_str(), r[pos].0.as_str())))
            invariant
                pos <= r@.len(),
                item == (code@, count),
                forall|k: int| 0 <= k < pos ==> !ranks_before(item, #[trigger] pairs_view(r@)[k]),
            decreases r.len() - pos,
        {
            pos = pos + 1;
        }
        let ghost before = pairs_view(r@);
        r.insert(pos, (code, count));
        proof {
            let after = pairs_view(r@);
            assert(after =~= before.insert(pos as int, item));
            assert(error_counts(issues@).take(i + 1) =~= error_counts(issues@).take(i as int).push(item));
            assert forall|a: int, b: int| 0 <= a < b < after.len() implies !ranks_before(#[trigger] after[b], #[trigger] after[a]) by {
                if b < pos {
                    assert(after[a] == before[a] && after[b] == before[b]);
                } else if b == pos {
                    assert(after[a] == before[a]);
                } else if a < pos {
                    assert(after[a] == before[a] && after[b] == before[b - 1]);
                } else if a == pos {
                    assert(after[b] == before[b - 1]);
                    if pos < before.len() {
                        assert(ranks_before(item, before[pos as int]));
                        if ranks_before(before[b - 1], item) {
                            lemma_rank_transitive(before[b - 1], item, before[pos as int]);
                            if b - 1 == pos {
                                lemma_rank_irreflexive(before[pos as int]);
                            }
                        }
                    }
                } else {
                    assert(after[a] == before[a - 1] && after[b] == before[b - 1]);
                }
            }
        }
        i = i + 1;
    }
    assert(error_counts(issues@).take(n as int) =~= error_counts(issues@));
    r
}

/// The first `n` ranked codes as `code:count`.
pub fn top_counts(ranked_counts: &Vec<(String, usize)>, n: usize) -> (r: Vec<String>)
    ensures
        views(r@) == pairs_view(ranked_counts@).take(
            if n < ranked_counts@.len() {
                n as int
            } else {
                ranked_counts@.len() as int
            },
        ).map_values(|e: (Seq<char>, usize)| count_part(e.0, e.1 as nat)),
{
    let m = if n < ranked_counts.len() {
        n
    } else {
        ranked_counts.len()
    };
    let mut r: Vec<String> = Vec::new();
    let mut i: usize = 0;
    while i < m
        invariant
            i <= m,
            m <= ranked_counts@.len(),
            views(r@) == pairs_view(ranked_counts@).take(i as int).map_values(
                |e: (Seq<char>, usize)| count_part(e.0, e.1 as nat),
            ),
        decreases m - i,
    {
        let mut p = owned(ranked_counts[i].0.as_str());
        append_str(&mut p, ":");
        append_str(&mut p, usize_to_decimal(ranked_counts[i].1).as_str());
        let ghost pv = pairs_view(ranked_counts@);
        assert(pv[i as int] == (ranked_counts@[i as int].0@, ranked_counts@[i as int].1));
        assert(p@ == count_part(pv[i as int].0, pv[i as int].1 as nat));
        let ghost old_r = views(r@);
        r.push(p);
        assert(views(r@) =~= old_r.push(p@));
        i = i + 1;
        assert(pv.take(i as int) =~= pv.take(i - 1).push(pv[i - 1]));
        assert(views(r@) =~= pv.take(i as int).map_values(|e: (Seq<char>, usize)| count_part(e.0, e.1 as nat)));
    }
    r
}

/// One line of the issue listing: position, code and message.
pub open spec fn issue_line(pos: nat, code: Seq<char>, msg: Seq<char>) -> Seq<char> {
    "  "@ + decimal(pos) + ". "@ + code + ": "@ + msg
}

/// The lines for issue `i` (numbered from one): every message, or only the
/// first.
pub open spec fn issue_lines_of(i: int, e: (String, Vec<String>), all: bool) -> Seq<Seq<char>> {
    if all {
        views(e.1@).map_values(|m: Seq<char>| issue_line((i + 1) as nat, e.0@, m))
    } else if e.1@.len() > 0 {
        seq![issue_line((i + 1) as nat, e.0@, e.1@[0]@)]
    } else {
        seq![]
    }
}

/// The lines for issues `0..k`.
pub open spec fn issue_lines_upto(issues: Seq<(String, Vec<String>)>, k: int, all: bool) -> Seq<Seq<char>>
    decreases k,
{
    if k <= 0 {
        seq![]
    } else {
        issue_lines_upto(issues, k - 1, all) + issue_lines_of(k - 1, issues[k - 1], all)
    }
}

/// The listing of codes with validation errors: with `show_all`, every
/// message of every code; otherwise the first message of each of the first
/// five codes.
pub fn issue_lines(issues: &Vec<(String, Vec<String>)>, show_all: bool) -> (r: Vec<String>)
    requires
        issues@.len() < usize::MAX,
    ensures
        views(r@) == issue_lines_upto(
            issues@,
            if show_all || issues@.len() < 5 {
                issues@.len() as int
            } else {
                5
            },
            show_all,
        ),
{
    let m = if show_all || issues.len() < 5 {
        issues.len()
    } else {
        5
    };
    let mut r: Vec<String> = Vec::new();
    let mut i: usize = 0;
    while i < m
        invariant
            i <= m <= issues@.len(),
            issues@.len() < usize::MAX,
            views(r@) == issue_lines_upto(issues@, i as int, show_all),
        decreases m - i,
    {
        let code = issues[i].0.as_str();
        let msgs = &issues[i].1;
        let ghost base = views(r@);
        let num = usize_to_decimal(i + 1);
        if show_all {
            let mut j: usize = 0;
            while j < msgs.len()
                invariant
                    j <= msgs@.len(),
                    num@ == decimal((i + 1) as nat),
                    views(r@) == base + views(msgs@).take(j as int).map_values(
                        |mm: Seq<char>| issue_line((i + 1) as nat, code@, mm),
                    ),
                decreases msgs.len() - j,
            {
                let mut line = owned("  ");
                append_str(&mut line, num.as_str());
                append_str(&mut line, ". ");
                append_str(&mut line, code);
                append_str(&mut line, ": ");
                append_str(&mut line, msgs[j].as_str());
                let ghost mv = views(msgs@);
                assert(mv[j as int] == msgs@[j as int]@);
                assert(line@ == issue_line((i + 1) as nat, code@, mv[j as int]));
                let ghost old_r = views(r@);
                r.push(line);
                assert(views(r@) =~= old_r.push(line@));
                j = j + 1;
                assert(mv.take(j as int) =~= mv.take(j - 1).push(mv[j - 1]));
                assert(views(r@) =~= base + mv.take(j as int).map_values(
                    |mm: Seq<char>| issue_line((i + 1) as nat, code@, mm),
                ));
            }
            assert(views(msgs@).take(msgs@.len() as int) =~= views(msgs@));
        } else if msgs.len() > 0 {
            let mut line = owned("  ");
            append_str(&mut line, num.as_str());
            append_str(&mut line, ". ");
            append_str(&mut line, code);
            append_str(&mut line, ": ");
            append_str(&mut line, msgs[0].as_str());
            r.push(line);
        }
        i = i + 1;
        assert(views(r@) =~= issue_lines_upto(issues@, i as int, show_all));
    }
    r
}

} // verus!
