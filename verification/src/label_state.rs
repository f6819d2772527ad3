//! Per-label validation state: the producers seen and whether a consumer
//! used them, field numbers, loaded fonts, explicit dimensions and the
//! graphic memory a label needs.

use crate::plan::{insert_code, no_dups};
use crate::predicates::{contains_code, seq_has};
use crate::state::{no_values, spec_apply_producer, LabelValueState};
use crate::text::{chars_of, owned, str_eq};
use vstd::prelude::*;

verus! {

broadcast use vstd::seq::group_seq_axioms;

/// The pairs of an association list, keys taken as plain strings.
pub open spec fn pairs_view<T>(v: Seq<(String, T)>) -> Seq<(Seq<char>, T)> {
    v.map_values(|p: (String, T)| (p.0@, p.1))
}

/// The value of key `k` in an association list: that of its first entry.
pub open spec fn lookup<T>(v: Seq<(Seq<char>, T)>, k: Seq<char>) -> Option<T>
    decreases v.len(),
{
    if v.len() == 0 {
        None
    } else if v[0].0 == k {
        Some(v[0].1)
    } else {
        lookup(v.drop_first(), k)
    }
}

/// No key occurs twice.
pub open spec fn keys_distinct<T>(v: Seq<(Seq<char>, T)>) -> bool {
    forall|i: int, j: int| 0 <= i < j < v.len() ==> (#[trigger] v[i]).0 != (#[trigger] v[j]).0
}

/// With distinct keys, each entry gives the value of its key.
pub proof fn lemma_lookup_at<T>(v: Seq<(Seq<char>, T)>, j: int)
    requires
        keys_distinct(v),
        0 <= j < v.len(),
    ensures
        lookup(v, v[j].0) == Some(v[j].1),
    decreases j,
{
    if j > 0 {
        let w = v.drop_first();
        assert(v[0].0 != v[j].0);
        assert forall|a: int, b: int| 0 <= a < b < w.len() implies (#[trigger] w[a]).0 != (#[trigger] w[b]).0 by {
            assert(w[a] == v[a + 1] && w[b] == v[b + 1]);
        }
        assert(w[j - 1] == v[j]);
        lemma_lookup_at(w, j - 1);
    }
}

/// A key without an entry has no value.
pub proof fn lemma_lookup_absent<T>(v: Seq<(Seq<char>, T)>, k: Seq<char>)
    requires
        forall|i: int| 0 <= i < v.len() ==> (#[trigger] v[i]).0 != k,
    ensures
        lookup(v, k) is None,
    decreases v.len(),
{
    if v.len() > 0 {
        let w = v.drop_first();
        assert forall|i: int| 0 <= i < w.len() implies (#[trigger] w[i]).0 != k by {
            assert(w[i] == v[i + 1]);
        }
        lemma_lookup_absent(w, k);
    }
}

/// Adding an entry for a key that has none leaves the other keys alone.
pub proof fn lemma_lookup_push<T>(v: Seq<(Seq<char>, T)>, e: (Seq<char>, T), k: Seq<char>)
    ensures
        lookup(v.push(e), k) == match lookup(v, k) {
            Some(x) => Some(x),
            None => if e.0 == k {
                Some(e.1)
            } else {
                None
            },
        },
    decreases v.len(),
{
    if v.len() > 0 {
        assert(v.push(e).drop_first() =~= v.drop_first().push(e));
        assert(v.push(e)[0] == v[0]);
        lemma_lookup_push(v.drop_first(), e, k);
    } else {
        assert(v.push(e).drop_first() =~= v);
        assert(lookup(v, k) is None);
    }
}

/// The value of a key, read off any entry with distinct keys.
pub proof fn lemma_lookup_cases<T>(v: Seq<(Seq<char>, T)>, k: Seq<char>)
    requires
        keys_distinct(v),
    ensures
        (exists|i: int| 0 <= i < v.len() && (#[trigger] v[i]).0 == k) ==> lookup(v, k) == Some(
            v[choose|i: int| 0 <= i < v.len() && (#[trigger] v[i]).0 == k].1,
        ),
        !(exists|i: int| 0 <= i < v.len() && (#[trigger] v[i]).0 == k) ==> lookup(v, k) is None,
{
    if exists|i: int| 0 <= i < v.len() && (#[trigger] v[i]).0 == k {
        let i = choose|i: int| 0 <= i < v.len() && (#[trigger] v[i]).0 == k;
        lemma_lookup_at(v, i);
    } else {
        lemma_lookup_absent(v, k);
    }
}

/// The first entry for `k` gives its value.
proof fn lemma_lookup_first<T>(v: Seq<(Seq<char>, T)>, k: Seq<char>, i: int)
    requires
        0 <= i < v.len(),
        v[i].0 == k,
        forall|j: int| 0 <= j < i ==> (#[trigger] v[j]).0 != k,
    ensures
        lookup(v, k) == Some(v[i].1),
    decreases i,
{
    if i > 0 {
        let w = v.drop_first();
        assert(v[0].0 != k);
        assert forall|j: int| 0 <= j < i - 1 implies (#[trigger] w[j]).0 != k by {
            assert(w[j] == v[j + 1]);
        }
        lemma_lookup_first(w, k, i - 1);
    }
}

/// The index of the first entry for `k`, if any.
pub open spec fn first_key<T>(v: Seq<(Seq<char>, T)>, k: Seq<char>) -> Option<int>
    decreases v.len(),
{
    if v.len() == 0 {
        None
    } else if v[0].0 == k {
        Some(0)
    } else {
        match first_key(v.drop_first(), k) {
            Some(i) => Some(i + 1),
            None => None,
        }
    }
}

/// The list with key `k` set to `val`: its first entry updated, or a new
/// entry added at the end.
pub open spec fn set_key<T>(v: Seq<(Seq<char>, T)>, k: Seq<char>, val: T) -> Seq<(Seq<char>, T)> {
    match first_key(v, k) {
        Some(i) => v.update(i, (k, val)),
        None => v.push((k, val)),
    }
}

proof fn lemma_first_key_at<T>(v: Seq<(Seq<char>, T)>, k: Seq<char>, i: int)
    requires
        0 <= i < v.len(),
        v[i].0 == k,
        forall|j: int| 0 <= j < i ==> (#[trigger] v[j]).0 != k,
    ensures
        first_key(v, k) == Some(i),
    decreases i,
{
    if i > 0 {
        let w = v.drop_first();
        assert(v[0].0 != k);
        assert forall|j: int| 0 <= j < i - 1 implies (#[trigger] w[j]).0 != k by {
            assert(w[j] == v[j + 1]);
        }
        lemma_first_key_at(w, k, i - 1);
    }
}

proof fn lemma_first_key_none<T>(v: Seq<(Seq<char>, T)>, k: Seq<char>)
    requires
        forall|j: int| 0 <= j < v.len() ==> (#[trigger] v[j]).0 != k,
    ensures
        first_key(v, k) is None,
    decreases v.len(),
{
    if v.len() > 0 {
        let w = v.drop_first();
        assert forall|j: int| 0 <= j < w.len() implies (#[trigger] w[j]).0 != k by {
            assert(w[j] == v[j + 1]);
        }
        lemma_first_key_none(w, k);
    }
}

/// The index of the first entry for `k`, if any.
fn pair_index<T>(v: &Vec<(String, T)>, k: &str) -> (r: Option<usize>)
    ensures
        match r {
            Some(i) => i < v@.len() && v@[i as int].0@ == k@ && forall|j: int|
                0 <= j < i ==> (#[trigger] v@[j]).0@ != k@,
            None => forall|i: int| 0 <= i < v@.len() ==> (#[trigger] v@[i]).0@ != k@,
        },
{
    let mut i: usize = 0;
    while i < v.len()
        invariant
            i <= v@.len(),
            forall|j: int| 0 <= j < i ==> (#[trigger] v@[j]).0@ != k@,
        decreases v.len() - i,
    {
        if str_eq(v[i].0.as_str(), k) {
            return Some(i);
        }
        i = i + 1;
    }
    None
}

/// The value of key `k` in an association list.
pub fn pair_get<T: Copy>(v: &Vec<(String, T)>, k: &str) -> (r: Option<T>)
    ensures
        r == lookup(pairs_view(v@), k@),
{
    let ghost pv = pairs_view(v@);
    match pair_index(v, k) {
        Some(i) => {
            proof {
                assert forall|j: int| 0 <= j < i implies (#[trigger] pv[j]).0 != k@ by {
                    assert(pv[j].0 == v@[j].0@);
                }
                lemma_lookup_first(pv, k@, i as int);
            }
            Some(v[i].1)
        },
        None => {
            proof {
                assert forall|j: int| 0 <= j < pv.len() implies (#[trigger] pv[j]).0 != k@ by {
                    assert(pv[j].0 == v@[j].0@);
                }
                lemma_lookup_absent(pv, k@);
            }
            None
        },
    }
}

/// Sets the value of key `k`, adding an entry when it has none.
pub fn pair_set<T: Copy>(v: &mut Vec<(String, T)>, k: &str, val: T)
    requires
        keys_distinct(pairs_view(old(v)@)),
    ensures
        keys_distinct(pairs_view(final(v)@)),
        forall|q: Seq<char>| #[trigger] lookup(pairs_view(final(v)@), q) == if q == k@ {
            Some(val)
        } else {
            lookup(pairs_view(old(v)@), q)
        },
        pairs_view(final(v)@) == set_key(pairs_view(old(v)@), k@, val),
{
    let ghost o = pairs_view(v@);
    match pair_index(v, k) {
        Some(i) => {
            v.set(i, (owned(k), val));
            proof {
                let w = pairs_view(v@);
                assert(w =~= o.update(i as int, (k@, val)));
                assert forall|j: int| 0 <= j < i implies (#[trigger] o[j]).0 != k@ by {
                    assert(o[j].0 == old(v)@[j].0@);
                }
                lemma_first_key_at(o, k@, i as int);
                assert forall|a: int, b: int| 0 <= a < b < w.len() implies (#[trigger] w[a]).0 != (#[trigger] w[b]).0 by {
                    assert(w[a].0 == o[a].0 && w[b].0 == o[b].0);
                }
                assert forall|q: Seq<char>| #[trigger] lookup(w, q) == if q == k@ {
                    Some(val)
                } else {
                    lookup(o, q)
                } by {
                    if q == k@ {
                        lemma_lookup_at(w, i as int);
                    } else {
                        lemma_lookup_cases(w, q);
                        lemma_lookup_cases(o, q);
                        if exists|j: int| 0 <= j < w.len() && (#[trigger] w[j]).0 == q {
                            let j = choose|j: int| 0 <= j < w.len() && (#[trigger] w[j]).0 == q;
                            assert(o[j] == w[j]);
                            lemma_lookup_at(o, j);
                        } else {
                            assert forall|j: int| 0 <= j < o.len() implies (#[trigger] o[j]).0 != q by {
                                assert(w[j].0 == o[j].0);
                            }
                            lemma_lookup_absent(o, q);
                        }
                    }
                }
            }
        },
        None => {
            v.push((owned(k), val));
            proof {
                let w = pairs_view(v@);
                assert(w =~= o.push((k@, val)));
                assert forall|j: int| 0 <= j < o.len() implies (#[trigger] o[j]).0 != k@ by {
                    assert(o[j].0 == old(v)@[j].0@);
                }
                lemma_first_key_none(o, k@);
                assert forall|a: int, b: int| 0 <= a < b < w.len() implies (#[trigger] w[a]).0 != (#[trigger] w[b]).0 by {
                    assert(w[a] == o[a]);
                    if b < o.len() {
                        assert(w[b] == o[b]);
                    }
                }
                lemma_lookup_absent(o, k@);
                assert forall|q: Seq<char>| #[trigger] lookup(w, q) == if q == k@ {
                    Some(val)
                } else {
                    lookup(o, q)
                } by {
                    lemma_lookup_push(o, (k@, val), q);
                }
            }
        },
    }
}

/// A label's validation state as plain values.
pub struct LabelView {
    pub producers: Seq<Seq<char>>,
    pub field_numbers: Seq<(Seq<char>, usize)>,
    pub fonts: Seq<char>,
    pub last_idx: Seq<(Seq<char>, usize)>,
    pub consumed: Seq<(Seq<char>, bool)>,
    pub has_explicit_pw: bool,
    pub has_explicit_ll: bool,
    pub gf_total_bytes: u32,
    pub values: LabelValueState,
}

/// The names with `c` added at the end unless it is there already.
pub open spec fn insert_name(p: Seq<Seq<char>>, c: Seq<char>) -> Seq<Seq<char>> {
    if p.contains(c) {
        p
    } else {
        p.push(c)
    }
}

/// The state after producer `code` is recorded at node `node_idx`: seen,
/// last set there, and not consumed yet.
pub open spec fn recorded(v: LabelView, code: Seq<char>, node_idx: usize) -> LabelView {
    LabelView {
        producers: insert_name(v.producers, code),
        last_idx: set_key(v.last_idx, code, node_idx),
        consumed: set_key(v.consumed, code, false),
        ..v
    }
}

/// The state after producer command `code` (recorded under `key`) with
/// arguments `args` at node `node_idx`: recorded, and its values applied.
pub open spec fn produced(v: LabelView, key: Seq<char>, node_idx: usize, code: Seq<char>, args: Seq<crate::ast::ArgSlot>) -> LabelView {
    LabelView { values: spec_apply_producer(v.values, code, args), ..recorded(v, key, node_idx) }
}

/// The state after producer `code` is marked consumed, when it was recorded.
pub open spec fn marked_consumed(v: LabelView, code: Seq<char>) -> LabelView {
    if lookup(v.consumed, code) is Some {
        LabelView { consumed: set_key(v.consumed, code, true), ..v }
    } else {
        v
    }
}

proof fn lemma_has_iff_contains(v: Seq<String>, c: Seq<char>)
    ensures
        seq_has(v, c) == v.map_values(|s: String| s@).contains(c),
{
    let m = v.map_values(|s: String| s@);
    if seq_has(v, c) {
        let i = choose|i: int| 0 <= i < v.len() && (#[trigger] v[i])@ == c;
        assert(m[i] == c);
    }
    if m.contains(c) {
        let i = choose|i: int| 0 <= i < m.len() && m[i] == c;
        assert(v[i]@ == c);
    }
}

/// Label-local producer and consumer state used by the validator checks.
#[derive(Debug)]
pub struct LabelState {
    /// Producer commands seen in this label.
    pub producers_seen: Vec<String>,
    /// Field numbers seen, with the node index of their first use.
    pub field_numbers: Vec<(String, usize)>,
    /// Fonts loaded with `^CW`.
    pub loaded_fonts: Vec<char>,
    /// The node index of each producer's last occurrence.
    pub last_producer_idx: Vec<(String, usize)>,
    /// Whether a consumer used each producer's state since it was set.
    pub producer_consumed: Vec<(String, bool)>,
    /// Whether `^PW` was set in this label.
    pub has_explicit_pw: bool,
    /// Whether `^LL` was set in this label.
    pub has_explicit_ll: bool,
    /// Graphic bytes declared by `^GF` commands so far.
    pub gf_total_bytes: u32,
    /// Typed values set by producer commands in this label.
    pub values: LabelValueState,
}

impl View for LabelState {
    type V = LabelView;

    open spec fn view(&self) -> LabelView {
        LabelView {
            producers: self.producers_seen@.map_values(|s: String| s@),
            field_numbers: pairs_view(self.field_numbers@),
            fonts: self.loaded_fonts@,
            last_idx: pairs_view(self.last_producer_idx@),
            consumed: pairs_view(self.producer_consumed@),
            has_explicit_pw: self.has_explicit_pw,
            has_explicit_ll: self.has_explicit_ll,
            gf_total_bytes: self.gf_total_bytes,
            values: self.values,
        }
    }
}

impl LabelState {
    /// No entry occurs twice.
    pub open spec fn wf(&self) -> bool {
        &&& no_dups(self.producers_seen@)
        &&& keys_distinct(self@.field_numbers)
        &&& keys_distinct(self@.last_idx)
        &&& keys_distinct(self@.consumed)
    }

    /// The state at the start of a label.
    pub fn new() -> (s: LabelState)
        ensures
            s.wf(),
            s.producers_seen@.len() == 0,
            s.field_numbers@.len() == 0,
            s.loaded_fonts@.len() == 0,
            s.last_producer_idx@.len() == 0,
            s.producer_consumed@.len() == 0,
            !s.has_explicit_pw,
            !s.has_explicit_ll,
            s.gf_total_bytes == 0,
            s.values == no_values(),
    {
        LabelState {
            producers_seen: Vec::new(),
            field_numbers: Vec::new(),
            loaded_fonts: Vec::new(),
            last_producer_idx: Vec::new(),
            producer_consumed: Vec::new(),
            has_explicit_pw: false,
            has_explicit_ll: false,
            gf_total_bytes: 0,
            values: LabelValueState::new(),
        }
    }

    /// Records that a state-producing command was seen at node `node_idx`:
    /// its state is set there and not consumed yet.
    pub fn record_producer(&mut self, code: &str, node_idx: usize)
        requires
            old(self).wf(),
        ensures
            final(self).wf(),
            forall|x: Seq<char>| #[trigger] seq_has(final(self).producers_seen@, x) <==> (seq_has(
                old(self).producers_seen@,
                x,
            ) || x == code@),
            forall|q: Seq<char>| #[trigger] lookup(final(self)@.last_idx, q) == if q == code@ {
                Some(node_idx)
            } else {
                lookup(old(self)@.last_idx, q)
            },
            forall|q: Seq<char>| #[trigger] lookup(final(self)@.consumed, q) == if q == code@ {
                Some(false)
            } else {
                lookup(old(self)@.consumed, q)
            },
            final(self).field_numbers == old(self).field_numbers,
            final(self).loaded_fonts == old(self).loaded_fonts,
            final(self).has_explicit_pw == old(self).has_explicit_pw,
            final(self).has_explicit_ll == old(self).has_explicit_ll,
            final(self).gf_total_bytes == old(self).gf_total_bytes,
            final(self)@ == recorded(old(self)@, code@, node_idx),
    {
        let ghost p0 = self.producers_seen@;
        let key = owned(code);
        insert_code(&mut self.producers_seen, &key);
        pair_set(&mut self.last_producer_idx, code, node_idx);
        pair_set(&mut self.producer_consumed, code, false);
        proof {
            lemma_has_iff_contains(p0, code@);
            let m0 = p0.map_values(|s: String| s@);
            if !seq_has(p0, code@) {
                assert(self.producers_seen@.map_values(|s: String| s@) =~= m0.push(code@));
            }
            assert(self@ =~= recorded(old(self)@, code@, node_idx));
        }
    }

    /// Whether producer `code` was seen in this label.
    pub fn has_producer(&self, code: &str) -> (r: bool)
        ensures
            r == seq_has(self.producers_seen@, code@),
            r == self@.producers.contains(code@),
    {
        proof {
            lemma_has_iff_contains(self.producers_seen@, code@);
        }
        contains_code(&self.producers_seen, &chars_of(code))
    }

    /// Marks producer `code` as consumed, when it was recorded.
    pub fn mark_consumed(&mut self, producer_code: &str)
        requires
            old(self).wf(),
        ensures
            final(self).wf(),
            forall|q: Seq<char>| #[trigger] lookup(final(self)@.consumed, q) == if q == producer_code@
                && lookup(old(self)@.consumed, q) is Some {
                Some(true)
            } else {
                lookup(old(self)@.consumed, q)
            },
            final(self).producers_seen == old(self).producers_seen,
            final(self).field_numbers == old(self).field_numbers,
            final(self).loaded_fonts == old(self).loaded_fonts,
            final(self).last_producer_idx == old(self).last_producer_idx,
            final(self).has_explicit_pw == old(self).has_explicit_pw,
            final(self).has_explicit_ll == old(self).has_explicit_ll,
            final(self).gf_total_bytes == old(self).gf_total_bytes,
            final(self)@ == marked_consumed(old(self)@, producer_code@),
    {
        match pair_get(&self.producer_consumed, producer_code) {
            Some(_) => pair_set(&mut self.producer_consumed, producer_code, true),
            None => {},
        }
        assert(self@ =~= marked_consumed(old(self)@, producer_code@));
    }
}

} // verus!
