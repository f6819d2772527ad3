//! Splitting a command's raw argument text into argument slots, driven by
//! the command's signature (joiner, parameter names, split rule, padding).

use crate::ast::{ArgSlot, Presence};
use crate::tables::{effective_signature, lookup_command, opt_tables, spec_lookup, spec_signature, sum_counts, ParserTables, SplitRule, lemma_lookup_wf, opt_tables_wf};
use crate::text::{chars_of, chars_range, extend_chars, string_from_chars, trim, trim_chars};
use vstd::prelude::*;

verus! {

broadcast use vstd::seq::group_seq_axioms;

/// The character sequences held by a vector of character vectors.
pub open spec fn vv(v: Seq<Vec<char>>) -> Seq<Seq<char>> {
    v.map_values(|x: Vec<char>| x@)
}

/// First index `>= i` at which `pat` occurs in `s`.
pub open spec fn find_from(s: Seq<char>, pat: Seq<char>, i: int) -> Option<int>
    decreases s.len() - i,
{
    if i < 0 || i >= s.len() || i + pat.len() > s.len() {
        None
    } else if s.subrange(i, i + pat.len()) == pat {
        Some(i)
    } else {
        find_from(s, pat, i + 1)
    }
}

/// The pieces of `s[i..]` between non-overlapping occurrences of `pat`,
/// left to right (what `str::split` with a non-empty pattern yields).
pub open spec fn split_from(s: Seq<char>, pat: Seq<char>, i: int) -> Seq<Seq<char>>
    decreases s.len() - i,
{
    if i < 0 || i > s.len() || pat.len() == 0 {
        seq![]
    } else {
        match find_from(s, pat, i) {
            Some(j) => if i <= j && j + pat.len() <= s.len() {
                seq![s.subrange(i, j)] + split_from(s, pat, j + pat.len())
            } else {
                seq![]
            },
            None => seq![s.subrange(i, s.len() as int)],
        }
    }
}

/// The consecutive chunks of `chars` of the given sizes.
pub open spec fn split_pieces(chars: Seq<char>, counts: Seq<usize>) -> Seq<Seq<char>>
    decreases counts.len(),
{
    if counts.len() == 0 {
        seq![]
    } else {
        let off = sum_counts(counts.drop_last());
        split_pieces(chars, counts.drop_last()).push(chars.subrange(off, off + counts.last()))
    }
}

/// The parts after applying a split rule: the part at the rule's index, if
/// it has at least as many characters as the counts add up to, is replaced
/// by its chunks, any extra characters going to the last chunk; parts after
/// it are trimmed.
pub open spec fn apply_split(parts: Seq<Seq<char>>, idx: int, counts: Seq<usize>) -> Seq<Seq<char>> {
    if idx >= parts.len() {
        parts
    } else {
        let s = trim(parts[idx]);
        let total = sum_counts(counts);
        if s.len() < total {
            parts
        } else {
            let base = parts.take(idx) + split_pieces(s, counts);
            let base2 = if total < s.len() && base.len() > 0 {
                base.update(base.len() - 1, base.last() + s.subrange(total, s.len() as int))
            } else {
                base
            };
            base2 + parts.skip(idx + 1).map_values(|p: Seq<char>| trim(p))
        }
    }
}

/// The abstract value of an argument slot: key, presence and value.
pub open spec fn slot_view(a: ArgSlot) -> (Option<Seq<char>>, Presence, Option<Seq<char>>) {
    (
        match a.key {
            Some(k) => Some(k@),
            None => None,
        },
        a.presence,
        match a.value {
            Some(v) => Some(v@),
            None => None,
        },
    )
}

/// The abstract values of argument slots.
pub open spec fn slots_view(v: Seq<ArgSlot>) -> Seq<(Option<Seq<char>>, Presence, Option<Seq<char>>)> {
    v.map_values(|a: ArgSlot| slot_view(a))
}

/// The slot for part `p` at position `i` with the given parameter names.
pub open spec fn make_slot(keys: Seq<Seq<char>>, i: int, p: Seq<char>, verbatim: bool) -> (Option<Seq<char>>, Presence, Option<Seq<char>>) {
    let key = if i < keys.len() {
        Some(keys[i])
    } else {
        None
    };
    let normalized = if verbatim {
        p
    } else {
        trim(p)
    };
    if normalized.len() == 0 {
        (key, Presence::Empty, None)
    } else {
        (key, Presence::Value, Some(normalized))
    }
}

/// The argument slots the parser builds for `code` from raw argument text.
///
/// The signature's joiner (the active delimiter when it is `,`; `,` without
/// a signature) splits the trimmed text; an empty joiner keeps the raw text
/// as one part. The default signature's split rule then splits one part by
/// character counts, missing trailing parameters are padded as empty parts
/// when the signature allows it (the default), and each part becomes an
/// `Empty` slot when it trims to nothing and a `Value` slot otherwise.
pub open spec fn spec_parse_args(t: Option<ParserTables>, delim: char, code: Seq<char>, raw: Seq<char>) -> Seq<(Option<Seq<char>>, Presence, Option<Seq<char>>)> {
    let sig = spec_signature(t, code);
    let sig_joiner = match sig {
        Some(s) => s.joiner@,
        None => seq![','],
    };
    let keys = match sig {
        Some(s) => s.params@.map_values(|k: String| k@),
        None => seq![],
    };
    let joiner = if sig_joiner == seq![','] {
        seq![delim]
    } else {
        sig_joiner
    };
    let verbatim = joiner.len() == 0;
    let parts0 = if trim(raw).len() == 0 {
        seq![]
    } else if verbatim {
        seq![raw]
    } else {
        split_from(trim(raw), joiner, 0)
    };
    let dsig = match spec_lookup(t, code) {
        Some(e) => e.signature,
        None => None,
    };
    let parts1 = match dsig {
        Some(ds) => match ds.split_rule {
            Some(r) => apply_split(parts0, r.param_index as int, r.char_counts@),
            None => parts0,
        },
        None => parts0,
    };
    let allow = match dsig {
        Some(ds) => ds.allow_empty_trailing,
        None => true,
    };
    let parts2 = if keys.len() > 0 && allow && parts1.len() < keys.len() {
        parts1 + Seq::new((keys.len() - parts1.len()) as nat, |i: int| Seq::<char>::empty())
    } else {
        parts1
    };
    Seq::new(parts2.len(), |i: int| make_slot(keys, i, parts2[i], verbatim))
}

/// First index `>= from` at which `pat` occurs in `s`.
pub fn find_sub(s: &Vec<char>, pat: &Vec<char>, from: usize) -> (r: Option<usize>)
    requires
        from <= s.len(),
    ensures
        r matches Some(j) ==> find_from(s@, pat@, from as int) == Some(j as int),
        r is None ==> find_from(s@, pat@, from as int) is None,
    decreases s.len() - from,
{
    if pat.len() > s.len() - from || from >= s.len() {
        return None;
    }
    let mut k: usize = 0;
    while k < pat.len()
        invariant
            k <= pat.len() <= s.len() - from,
            forall|m: int| 0 <= m < k ==> s@[from + m] == pat@[m],
        decreases pat.len() - k,
    {
        if s[from + k] != pat[k] {
            assert(s@.subrange(from as int, from + pat.len())[k as int] != pat@[k as int]);
            if from < s.len() {
                return find_sub(s, pat, from + 1);
            } else {
                return None;
            }
        }
        k = k + 1;
    }
    assert(s@.subrange(from as int, from + pat.len()) =~= pat@);
    Some(from)
}

proof fn lemma_find_from_bounds(s: Seq<char>, pat: Seq<char>, i: int)
    ensures
        find_from(s, pat, i) matches Some(j) ==> i <= j && j + pat.len() <= s.len() && s.subrange(
            j,
            j + pat.len(),
        ) == pat,
    decreases s.len() - i,
{
    if i >= 0 && i < s.len() && i + pat.len() <= s.len() && s.subrange(i, i + pat.len()) != pat {
        lemma_find_from_bounds(s, pat, i + 1);
    }
}

/// The pieces of `s` between occurrences of a non-empty `pat`.
pub fn split_on(s: &Vec<char>, pat: &Vec<char>) -> (r: Vec<Vec<char>>)
    requires
        pat.len() > 0,
    ensures
        vv(r@) == split_from(s@, pat@, 0),
{
    let mut out: Vec<Vec<char>> = Vec::new();
    let mut i: usize = 0;
    loop
        invariant
            i <= s.len(),
            pat.len() > 0,
            vv(out@) + split_from(s@, pat@, i as int) == split_from(s@, pat@, 0),
        decreases s.len() - i,
    {
        let ghost before = vv(out@);
        proof {
            lemma_find_from_bounds(s@, pat@, i as int);
        }
        match find_sub(s, pat, i) {
            Some(j) => {
                let piece = chars_range(s, i, j);
                out.push(piece);
                assert(vv(out@) =~= before.push(s@.subrange(i as int, j as int)));
                assert(vv(out@) + split_from(s@, pat@, j + pat.len()) =~= split_from(s@, pat@, 0));
                i = j + pat.len();
            },
            None => {
                let piece = chars_range(s, i, s.len());
                out.push(piece);
                assert(vv(out@) =~= before.push(s@.subrange(i as int, s@.len() as int)));
                assert(vv(out@) =~= split_from(s@, pat@, 0));
                return out;
            },
        }
    }
}

proof fn lemma_sum_counts_prefix(c: Seq<usize>, k: int)
    requires
        0 <= k <= c.len(),
        forall|m: int| 0 <= m < c.len() ==> c[m] >= 0,
    ensures
        sum_counts(c.take(k)) <= sum_counts(c),
        sum_counts(c.take(k)) >= 0,
    decreases c.len() - k,
{
    if k < c.len() {
        lemma_sum_counts_prefix(c, k + 1);
        assert(c.take(k + 1).drop_last() =~= c.take(k));
    } else {
        assert(c.take(k) =~= c);
    }
    lemma_sum_nonneg(c.take(k));
}

proof fn lemma_sum_nonneg(c: Seq<usize>)
    ensures
        sum_counts(c) >= 0,
    decreases c.len(),
{
    if c.len() > 0 {
        lemma_sum_nonneg(c.drop_last());
    }
}

/// Applies a split rule to the parts (see [`apply_split`]).
fn apply_split_rule(parts: Vec<Vec<char>>, rule: &SplitRule) -> (r: Vec<Vec<char>>)
    requires
        sum_counts(rule.char_counts@) <= usize::MAX,
    ensures
        vv(r@) == apply_split(vv(parts@), rule.param_index as int, rule.char_counts@),
{
    let idx = rule.param_index;
    if idx >= parts.len() {
        return parts;
    }
    let s = trim_chars(&parts[idx]);
    let counts = &rule.char_counts;
    let mut total: usize = 0;
    let mut k: usize = 0;
    while k < counts.len()
        invariant
            k <= counts.len(),
            total as int == sum_counts(counts@.take(k as int)),
            sum_counts(counts@) <= usize::MAX,
        decreases counts.len() - k,
    {
        proof {
            lemma_sum_counts_prefix(counts@, k + 1);
            assert(counts@.take(k + 1).drop_last() =~= counts@.take(k as int));
        }
        total = total + counts[k];
        k = k + 1;
    }
    assert(counts@.take(counts.len() as int) =~= counts@);
    if s.len() < total {
        return parts;
    }
    let mut new_parts: Vec<Vec<char>> = Vec::new();
    let mut i: usize = 0;
    while i < idx
        invariant
            i <= idx < parts.len(),
            new_parts@.len() == i,
            vv(new_parts@) == vv(parts@).take(i as int),
        decreases idx - i,
    {
        new_parts.push(chars_range(&parts[i], 0, parts[i].len()));
        assert(parts@[i as int]@.subrange(0, parts@[i as int]@.len() as int) =~= parts@[i as int]@);
        assert(vv(new_parts@) =~= vv(parts@).take(i + 1));
        i = i + 1;
    }
    let mut offset: usize = 0;
    let mut c: usize = 0;
    while c < counts.len()
        invariant
            c <= counts.len(),
            idx < parts.len(),
            offset as int == sum_counts(counts@.take(c as int)),
            sum_counts(counts@) == total,
            total <= s.len(),
            vv(new_parts@) == vv(parts@).take(idx as int) + split_pieces(s@, counts@.take(c as int)),
        decreases counts.len() - c,
    {
        proof {
            lemma_sum_counts_prefix(counts@, c + 1);
            assert(counts@.take(c + 1).drop_last() =~= counts@.take(c as int));
        }
        let end = offset + counts[c];
        let piece = chars_range(&s, offset, end);
        let ghost before = vv(new_parts@);
        new_parts.push(piece);
        assert(vv(new_parts@) =~= before.push(s@.subrange(offset as int, end as int)));
        offset = end;
        c = c + 1;
    }
    assert(counts@.take(counts.len() as int) =~= counts@);
    let ghost base = vv(parts@).take(idx as int) + split_pieces(s@, counts@);
    if offset < s.len() && new_parts.len() > 0 {
        let last = new_parts.len() - 1;
        let mut lastv = chars_range(&new_parts[last], 0, new_parts[last].len());
        assert(new_parts@[last as int]@.subrange(0, new_parts@[last as int]@.len() as int) =~= new_parts@[last as int]@);
        let rest = chars_range(&s, offset, s.len());
        extend_chars(&mut lastv, &rest);
        new_parts.set(last, lastv);
        assert(vv(new_parts@) =~= base.update(base.len() - 1, base.last() + s@.subrange(
            total as int,
            s@.len() as int,
        )));
    }
    let ghost base2 = vv(new_parts@);
    let mut j: usize = idx + 1;
    while j < parts.len()
        invariant
            idx < j <= parts.len(),
            new_parts@.len() == base2.len() + (j - idx - 1),
            vv(new_parts@) == base2 + vv(parts@).subrange(idx + 1, j as int).map_values(
                |p: Seq<char>| trim(p),
            ),
        decreases parts.len() - j,
    {
        let tp = trim_chars(&parts[j]);
        let ghost bv = vv(new_parts@);
        new_parts.push(tp);
        assert(vv(new_parts@) =~= bv.push(trim(vv(parts@)[j as int])));
        assert(vv(new_parts@) =~= base2 + vv(parts@).subrange(idx + 1, j + 1).map_values(
            |p: Seq<char>| trim(p),
        ));
        j = j + 1;
    }
    assert(vv(parts@).subrange(idx + 1, parts.len() as int) =~= vv(parts@).skip(idx + 1));
    new_parts
}

/// A copy of a vector of strings.
pub fn clone_strings(v: &Vec<String>) -> (r: Vec<String>)
    ensures
        r@.map_values(|k: String| k@) == v@.map_values(|k: String| k@),
{
    let mut r: Vec<String> = Vec::new();
    let mut i: usize = 0;
    while i < v.len()
        invariant
            i <= v.len(),
            r@.len() == i,
            r@.map_values(|k: String| k@) == v@.map_values(|k: String| k@).take(i as int),
        decreases v.len() - i,
    {
        let ghost before = r@;
        r.push(v[i].clone());
        assert(r@.map_values(|k: String| k@) =~= v@.map_values(|k: String| k@).take(i + 1));
        i = i + 1;
    }
    assert(v@.map_values(|k: String| k@).take(v.len() as int) =~= v@.map_values(|k: String| k@));
    r
}

/// Builds the argument slots for `code` from raw argument text (see
/// [`spec_parse_args`]).
pub fn parse_args(tables: Option<&ParserTables>, delimiter: char, code: &str, raw: &Vec<char>) -> (r: Vec<ArgSlot>)
    requires
        opt_tables_wf(opt_tables(tables)),
    ensures
        slots_view(r@) == spec_parse_args(opt_tables(tables), delimiter, code@, raw@),
{
    let ghost t = opt_tables(tables);
    let sig = effective_signature(tables, code);
    let (sig_joiner, keys): (Vec<char>, Vec<String>) = match sig {
        Some(s) => (chars_of(s.joiner.as_str()), clone_strings(&s.params)),
        None => (vec![','], Vec::new()),
    };
    let joiner: Vec<char> = if sig_joiner.len() == 1 && sig_joiner[0] == ',' {
        vec![delimiter]
    } else {
        sig_joiner
    };
    assert(joiner@ == (if sig_joiner@ == seq![','] {
        seq![delimiter]
    } else {
        sig_joiner@
    })) by {
        if sig_joiner@.len() == 1 && sig_joiner@[0] == ',' {
            assert(sig_joiner@ =~= seq![',']);
        }
    }
    let raw_trimmed = trim_chars(raw);
    let preserve_verbatim = joiner.len() == 0;
    let mut parts: Vec<Vec<char>> = if raw_trimmed.len() == 0 {
        Vec::new()
    } else if preserve_verbatim {
        let mut v: Vec<Vec<char>> = Vec::new();
        v.push(chars_range(raw, 0, raw.len()));
        assert(raw@.subrange(0, raw@.len() as int) =~= raw@);
        assert(vv(v@) =~= seq![raw@]);
        v
    } else {
        split_on(&raw_trimmed, &joiner)
    };
    let ghost parts0 = vv(parts@);
    let entry = lookup_command(tables, code);
    let dsig = match entry {
        Some(ce) => ce.signature.as_ref(),
        None => None,
    };
    proof {
        lemma_lookup_wf(t, code@);
    }
    match dsig {
        Some(ds) => match &ds.split_rule {
            Some(rule) => {
                parts = apply_split_rule(parts, rule);
            },
            None => {},
        },
        None => {},
    }
    let allow_trailing = match dsig {
        Some(ds) => ds.allow_empty_trailing,
        None => true,
    };
    if keys.len() > 0 && allow_trailing && parts.len() < keys.len() {
        let ghost p1 = vv(parts@);
        let missing = keys.len() - parts.len();
        let mut m: usize = 0;
        while m < missing
            invariant
                m <= missing,
                parts@.len() == p1.len() + m,
                vv(parts@) == p1 + Seq::new(m as nat, |i: int| Seq::<char>::empty()),
            decreases missing - m,
        {
            let ghost bv = vv(parts@);
            parts.push(Vec::new());
            assert(parts@[parts@.len() - 1]@ =~= Seq::<char>::empty());
            assert(vv(parts@) =~= bv.push(Seq::<char>::empty()));
            m = m + 1;
            assert(vv(parts@) =~= p1 + Seq::new(m as nat, |i: int| Seq::<char>::empty()));
        }
    }
    let ghost parts2 = vv(parts@);
    let ghost skeys = keys@.map_values(|k: String| k@);
    let mut args: Vec<ArgSlot> = Vec::new();
    let mut idx: usize = 0;
    while idx < parts.len()
        invariant
            idx <= parts.len(),
            parts2 == vv(parts@),
            skeys == keys@.map_values(|k: String| k@),
            skeys.len() == keys@.len(),
            args@.len() == idx,
            slots_view(args@) == Seq::new(
                idx as nat,
                |i: int| make_slot(skeys, i, parts2[i], preserve_verbatim),
            ),
        decreases parts.len() - idx,
    {
        let normalized = if preserve_verbatim {
            chars_range(&parts[idx], 0, parts[idx].len())
        } else {
            trim_chars(&parts[idx])
        };
        assert(parts@[idx as int]@.subrange(0, parts@[idx as int]@.len() as int) =~= parts@[idx as int]@);
        let key = if idx < keys.len() {
            Some(keys[idx].clone())
        } else {
            None
        };
        let slot = if normalized.len() == 0 {
            ArgSlot { key, presence: Presence::Empty, value: None }
        } else {
            ArgSlot { key, presence: Presence::Value, value: Some(string_from_chars(&normalized)) }
        };
        assert(slot_view(slot) == make_slot(skeys, idx as int, parts2[idx as int], preserve_verbatim));
        let ghost bs = slots_view(args@);
        let ghost sv = slot_view(slot);
        args.push(slot);
        assert(slots_view(args@) =~= bs.push(sv));
        assert(slots_view(args@) =~= Seq::new(
            (idx + 1) as nat,
            |i: int| make_slot(skeys, i, parts2[i], preserve_verbatim),
        ));
        idx = idx + 1;
    }
    args
}

} // verus!
