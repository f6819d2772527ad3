//! Predicates of the validator's rule language: pipe-separated target
//! lists, enum membership, firmware version order, `arg:` / `label:` /
//! `profile:` predicates and `when:` expressions built from them.

use crate::args::{find_from, find_sub, split_from, split_on, vv};
use crate::ast::{ArgSlot, Presence};
use crate::profile::{resolve_gate, spec_firmware, spec_resolve_gate, Profile};
use crate::state::{is_ascii_digit, parse_unsigned, parse_unsigned_exec};
use crate::tables::EnumValue;
use crate::text::{chars_eq, chars_of, chars_skip, chars_start_with, starts_with, string_from_chars, trim, trim_chars};
use vstd::prelude::*;

verus! {

broadcast use vstd::seq::group_seq_axioms;

/// The pieces of `s` between `|` characters.
pub open spec fn bar_pieces(s: Seq<char>) -> Seq<Seq<char>> {
    split_from(s, seq!['|'], 0)
}

/// The trimmed pieces that are not empty, in order.
pub open spec fn accepted_from(p: Seq<Seq<char>>) -> Seq<Seq<char>>
    decreases p.len(),
{
    if p.len() == 0 {
        seq![]
    } else {
        let rest = accepted_from(p.drop_last());
        if trim(p.last()).len() > 0 {
            rest.push(trim(p.last()))
        } else {
            rest
        }
    }
}

/// The entries of a `|`-separated list: each piece trimmed, empty ones
/// left out.
pub open spec fn accepted(s: Seq<char>) -> Seq<Seq<char>> {
    accepted_from(bar_pieces(s))
}

/// Whether a set of codes holds `x`.
pub open spec fn seq_has(set: Seq<String>, x: Seq<char>) -> bool {
    exists|i: int| 0 <= i < set.len() && (#[trigger] set[i])@ == x
}

/// Whether the code set holds `x`.
pub fn contains_code(set: &Vec<String>, x: &Vec<char>) -> (r: bool)
    ensures
        r == seq_has(set@, x@),
{
    let mut i: usize = 0;
    while i < set.len()
        invariant
            i <= set.len(),
            forall|j: int| 0 <= j < i ==> (#[trigger] set@[j])@ != x@,
        decreases set.len() - i,
    {
        let c = chars_of(set[i].as_str());
        if chars_eq(&c, x) {
            return true;
        }
        i = i + 1;
    }
    false
}

/// The entries of a `|`-separated list (see [`accepted`]).
pub fn accepted_entries(s: &Vec<char>) -> (r: Vec<Vec<char>>)
    ensures
        vv(r@) == accepted(s@),
{
    let sep: Vec<char> = vec!['|'];
    assert(sep@ =~= seq!['|']);
    let pieces = split_on(s, &sep);
    let mut out: Vec<Vec<char>> = Vec::new();
    let mut i: usize = 0;
    while i < pieces.len()
        invariant
            i <= pieces.len(),
            vv(pieces@) == bar_pieces(s@),
            vv(out@) == accepted_from(bar_pieces(s@).take(i as int)),
        decreases pieces.len() - i,
    {
        let ghost before = vv(out@);
        let t = trim_chars(&pieces[i]);
        assert(bar_pieces(s@).take(i + 1).drop_last() =~= bar_pieces(s@).take(i as int));
        assert(pieces@[i as int]@ == bar_pieces(s@)[i as int]);
        if t.len() > 0 {
            out.push(t);
            assert(vv(out@) =~= before.push(t@));
        }
        i = i + 1;
    }
    assert(bar_pieces(s@).take(pieces.len() as int) =~= bar_pieces(s@));
    out
}

/// Some entry of the `|`-separated `targets` is in `seen`.
pub open spec fn spec_any_target(targets: Seq<char>, seen: Seq<String>) -> bool {
    exists|i: int| 0 <= i < accepted(targets).len() && seq_has(seen, #[trigger] accepted(targets)[i])
}

/// Whether any of the pipe-separated targets (trimmed, non-empty) is in
/// `seen`.
pub fn any_target_in_set(targets: &str, seen: &Vec<String>) -> (r: bool)
    ensures
        r == spec_any_target(targets@, seen@),
{
    let t = chars_of(targets);
    any_target_chars(&t, seen)
}

pub fn any_target_chars(t: &Vec<char>, seen: &Vec<String>) -> (r: bool)
    ensures
        r == spec_any_target(t@, seen@),
{
    let acc = accepted_entries(t);
    let mut i: usize = 0;
    while i < acc.len()
        invariant
            i <= acc.len(),
            vv(acc@) == accepted(t@),
            forall|j: int| 0 <= j < i ==> !seq_has(seen@, #[trigger] accepted(t@)[j]),
        decreases acc.len() - i,
    {
        assert(acc@[i as int]@ == accepted(t@)[i as int]);
        if contains_code(seen, &acc[i]) {
            return true;
        }
        i = i + 1;
    }
    false
}

/// The value an enum entry stands for.
pub open spec fn enum_value_of(e: EnumValue) -> Seq<char> {
    match e {
        EnumValue::Simple(s) => s@,
        EnumValue::Object { value, .. } => value@,
    }
}

/// Whether an enum value list contains `target`.
pub fn enum_contains(values: &[EnumValue], target: &str) -> (r: bool)
    ensures
        r == exists|i: int| 0 <= i < values@.len() && enum_value_of(#[trigger] values@[i]) == target@,
{
    let t = chars_of(target);
    let mut i: usize = 0;
    while i < values.len()
        invariant
            i <= values.len(),
            t@ == target@,
            forall|j: int| 0 <= j < i ==> enum_value_of(#[trigger] values@[j]) != target@,
        decreases values.len() - i,
    {
        let v = match &values[i] {
            EnumValue::Simple(s) => chars_of(s.as_str()),
            EnumValue::Object { value, .. } => chars_of(value.as_str()),
        };
        if chars_eq(&v, &t) {
            return true;
        }
        i = i + 1;
    }
    false
}

/// A version string without one leading `V` or `X`.
pub open spec fn version_body(s: Seq<char>) -> Seq<char> {
    if s.len() > 0 && (s[0] == 'V' || s[0] == 'X') {
        s.drop_first()
    } else {
        s
    }
}

/// The longest prefix of `s` made of ASCII digits.
pub open spec fn leading_digits(s: Seq<char>) -> Seq<char>
    decreases s.len(),
{
    if s.len() == 0 || !is_ascii_digit(s[0]) {
        seq![]
    } else {
        seq![s[0]] + leading_digits(s.drop_first())
    }
}

/// The (major, minor) of a firmware version such as `V60.19.15Z`: after
/// an optional `V`/`X`, the part before the first `.` must be a `u32`; the
/// minor is the number the digits at the start of the second part make
/// (0 when there are none, when they overflow, or when there is no second
/// part).
pub open spec fn spec_parse_version(s: Seq<char>) -> Option<(nat, nat)> {
    let parts = split_from(version_body(s), seq!['.'], 0);
    if parts.len() == 0 {
        None
    } else {
        match parse_unsigned(parts[0], u32::MAX as nat) {
            Some(major) => Some(
                (
                    major,
                    if parts.len() > 1 {
                        match parse_unsigned(leading_digits(parts[1]), u32::MAX as nat) {
                            Some(m) => m,
                            None => 0,
                        }
                    } else {
                        0
                    },
                ),
            ),
            None => None,
        }
    }
}

/// `fw >= min_ver` as (major, minor) pairs, when both parse; false otherwise.
pub open spec fn spec_firmware_gte(fw: Seq<char>, min_ver: Seq<char>) -> bool {
    match (spec_parse_version(fw), spec_parse_version(min_ver)) {
        (Some((a, b)), Some((c, d))) => a > c || (a == c && b >= d),
        _ => false,
    }
}

/// The digits at the start of `s`.
fn leading_digits_exec(s: &Vec<char>) -> (r: Vec<char>)
    ensures
        r@ == leading_digits(s@),
{
    let mut i: usize = 0;
    while i < s.len() && s[i] >= '0' && s[i] <= '9'
        invariant
            i <= s.len(),
            forall|k: int| 0 <= k < i ==> is_ascii_digit(#[trigger] s@[k]),
        decreases s.len() - i,
    {
        i = i + 1;
    }
    proof {
        lemma_leading_digits(s@, i as int);
    }
    let mut r: Vec<char> = Vec::new();
    let mut k: usize = 0;
    while k < i
        invariant
            k <= i <= s.len(),
            r@ == s@.take(k as int),
        decreases i - k,
    {
        r.push(s[k]);
        k = k + 1;
        assert(r@ =~= s@.take(k as int));
    }
    r
}

proof fn lemma_leading_digits(s: Seq<char>, i: int)
    requires
        0 <= i <= s.len(),
        forall|k: int| 0 <= k < i ==> is_ascii_digit(#[trigger] s[k]),
        i == s.len() || !is_ascii_digit(s[i]),
    ensures
        leading_digits(s) == s.take(i),
    decreases i,
{
    if i == 0 {
        assert(s.take(0) =~= Seq::<char>::empty());
    } else {
        let t = s.drop_first();
        assert forall|k: int| 0 <= k < i - 1 implies is_ascii_digit(#[trigger] t[k]) by {
            assert(t[k] == s[k + 1]);
        }
        if i - 1 < t.len() {
            assert(t[i - 1] == s[i]);
        }
        lemma_leading_digits(t, i - 1);
        assert(seq![s[0]] + t.take(i - 1) =~= s.take(i));
    }
}

/// Reads (major, minor) from a firmware version (see [`spec_parse_version`]).
fn parse_version(s: &str) -> (r: Option<(u32, u32)>)
    ensures
        r matches Some((a, b)) ==> spec_parse_version(s@) == Some((a as nat, b as nat)),
        r is None ==> spec_parse_version(s@) is None,
{
    let cs = chars_of(s);
    let body = if cs.len() > 0 && (cs[0] == 'V' || cs[0] == 'X') {
        chars_skip(&cs, 1)
    } else {
        chars_skip(&cs, 0)
    };
    assert(body@ =~= version_body(s@));
    let dot: Vec<char> = vec!['.'];
    assert(dot@ =~= seq!['.']);
    let parts = split_on(&body, &dot);
    if parts.len() == 0 {
        return None;
    }
    assert(parts@[0]@ == vv(parts@)[0]);
    let first = string_from_chars(&parts[0]);
    let major = match parse_unsigned_exec(first.as_str(), 4294967295u64) {
        Some(v) => v as u32,
        None => {
            return None;
        },
    };
    let minor: u32 = if parts.len() > 1 {
        assert(parts@[1]@ == vv(parts@)[1]);
        let digits = leading_digits_exec(&parts[1]);
        let ds = string_from_chars(&digits);
        match parse_unsigned_exec(ds.as_str(), 4294967295u64) {
            Some(m) => m as u32,
            None => 0,
        }
    } else {
        0
    };
    Some((major, minor))
}

/// Compares firmware version strings such as `V60.19.15Z` or `X60.14.3`:
/// true when both parse and `fw >= min_ver` by (major, minor).
pub fn firmware_version_gte(fw: &str, min_ver: &str) -> (r: bool)
    ensures
        r == spec_firmware_gte(fw@, min_ver@),
{
    match (parse_version(fw), parse_version(min_ver)) {
        (Some((a, b)), Some((c, d))) => a > c || (a == c && b >= d),
        _ => false,
    }
}

/// Whether `s` ends with `suffix`.
pub open spec fn ends_with(s: Seq<char>, suffix: Seq<char>) -> bool {
    suffix.len() <= s.len() && s.subrange(s.len() - suffix.len(), s.len() as int) == suffix
}

/// Whether `s` ends with `suffix`.
fn chars_end_with(s: &Vec<char>, suffix: &Vec<char>) -> (r: bool)
    ensures
        r == ends_with(s@, suffix@),
{
    if suffix.len() > s.len() {
        return false;
    }
    let off = s.len() - suffix.len();
    let mut i: usize = 0;
    while i < suffix.len()
        invariant
            i <= suffix.len() <= s.len(),
            off == s.len() - suffix.len(),
            forall|k: int| 0 <= k < i ==> s@[off + k] == suffix@[k],
        decreases suffix.len() - i,
    {
        if s[off + i] != suffix[i] {
            assert(s@.subrange(off as int, s.len() as int)[i as int] != suffix@[i as int]);
            return false;
        }
        i = i + 1;
    }
    assert(s@.subrange(off as int, s.len() as int) =~= suffix@);
    true
}

/// `s` without `prefix`, when it starts with it.
pub fn strip_prefix(s: &Vec<char>, prefix: &str) -> (r: Option<Vec<char>>)
    ensures
        r matches Some(t) ==> starts_with(s@, prefix@) && t@ == s@.skip(prefix@.len() as int),
        r is None ==> !starts_with(s@, prefix@),
{
    let p = chars_of(prefix);
    if chars_start_with(s, &p) {
        Some(chars_skip(s, p.len()))
    } else {
        None
    }
}

/// The key of an argument slot, as characters.
pub open spec fn key_is(a: ArgSlot, k: Seq<char>) -> bool {
    a.key matches Some(key) && key@ == k
}

/// What an `arg:` predicate says of the arguments: `arg:<key>IsValue:<v1>|<v2>`
/// holds when an argument with that key has one of the listed values;
/// `arg:<key>Present` when one has a value; `arg:<key>Empty` when one is
/// empty. Anything else is false.
pub open spec fn spec_predicate_matches(when: Seq<char>, args: Seq<ArgSlot>) -> bool {
    if starts_with(when, "arg:"@) {
        let rest = when.skip("arg:"@.len() as int);
        match find_from(rest, "IsValue:"@, 0) {
            Some(j) => {
                let k = rest.take(j);
                let values = bar_pieces(rest.skip(j + "IsValue:"@.len()));
                exists|i: int|
                    0 <= i < args.len() && key_is(#[trigger] args[i], k) && (args[i].value matches Some(v)
                        && exists|m: int| 0 <= m < values.len() && #[trigger] values[m] == v@)
            },
            None => if ends_with(rest, "Present"@) {
                let k = rest.take(rest.len() - "Present"@.len());
                exists|i: int|
                    0 <= i < args.len() && key_is(#[trigger] args[i], k) && args[i].presence == Presence::Value
            } else if ends_with(rest, "Empty"@) {
                let k = rest.take(rest.len() - "Empty"@.len());
                exists|i: int|
                    0 <= i < args.len() && key_is(#[trigger] args[i], k) && args[i].presence == Presence::Empty
            } else {
                false
            },
        }
    } else {
        false
    }
}

/// Whether slot `a` has key `k`.
fn slot_key_is(a: &ArgSlot, k: &Vec<char>) -> (r: bool)
    ensures
        r == key_is(*a, k@),
{
    match &a.key {
        Some(key) => {
            let kc = chars_of(key.as_str());
            chars_eq(&kc, k)
        },
        None => false,
    }
}

/// Whether some piece equals `v`.
fn pieces_contain(pieces: &Vec<Vec<char>>, v: &Vec<char>) -> (r: bool)
    ensures
        r == exists|m: int| 0 <= m < pieces@.len() && #[trigger] vv(pieces@)[m] == v@,
{
    let mut m: usize = 0;
    while m < pieces.len()
        invariant
            m <= pieces.len(),
            forall|q: int| 0 <= q < m ==> #[trigger] vv(pieces@)[q] != v@,
        decreases pieces.len() - m,
    {
        if chars_eq(&pieces[m], v) {
            assert(vv(pieces@)[m as int] == v@);
            return true;
        }
        m = m + 1;
    }
    false
}

/// Evaluates an `arg:` predicate against a command's arguments (see
/// [`spec_predicate_matches`]).
pub fn predicate_matches(when: &str, args: &[ArgSlot]) -> (r: bool)
    ensures
        r == spec_predicate_matches(when@, args@),
{
    let w = chars_of(when);
    let rest = match strip_prefix(&w, "arg:") {
        Some(r) => r,
        None => {
            return false;
        },
    };
    let pat = chars_of("IsValue:");
    if pat.len() == 0 || rest.len() == 0 {
        proof {
            reveal_strlit("IsValue:");
        }
    }
    if rest.len() > 0 {
        if let Some(j) = find_sub(&rest, &pat, 0) {
            proof {
                lemma_find_bounds(rest@, pat@, 0);
            }
            let k = crate::text::chars_range(&rest, 0, j);
            let tail = chars_skip(&rest, j + pat.len());
            let sep: Vec<char> = vec!['|'];
            assert(sep@ =~= seq!['|']);
            let values = split_on(&tail, &sep);
            assert(k@ =~= rest@.take(j as int));
            let mut i: usize = 0;
            while i < args.len()
                invariant
                    i <= args.len(),
                    rest@ == when@.skip("arg:"@.len() as int),
                    starts_with(when@, "arg:"@),
                    find_from(rest@, "IsValue:"@, 0) == Some(j as int),
                    k@ == rest@.take(j as int),
                    vv(values@) == bar_pieces(rest@.skip(j + "IsValue:"@.len())),
                    forall|q: int|
                        0 <= q < i ==> !(key_is(#[trigger] args@[q], k@) && (args@[q].value matches Some(v)
                            && exists|m: int| 0 <= m < vv(values@).len() && #[trigger] vv(values@)[m] == v@)),
                decreases args.len() - i,
            {
                if slot_key_is(&args[i], &k) {
                    if let Some(v) = &args[i].value {
                        let vc = chars_of(v.as_str());
                        if pieces_contain(&values, &vc) {
                            proof {
                                let rest_s = when@.skip("arg:"@.len() as int);
                                assert(rest@ == rest_s);
                                let vals = bar_pieces(rest_s.skip(j + "IsValue:"@.len()));
                                let m = choose|m: int| 0 <= m < vv(values@).len() && #[trigger] vv(values@)[m] == vc@;
                                assert(vals[m] == v@);
                                assert(key_is(args@[i as int], rest_s.take(j as int)));
                            }
                            return true;
                        }
                    }
                }
                i = i + 1;
            }
            return false;
        }
    } else {
        proof {
            reveal_strlit("IsValue:");
            assert(find_from(rest@, "IsValue:"@, 0) is None);
        }
    }
    let present = chars_of("Present");
    let empty = chars_of("Empty");
    let which: Option<(Vec<char>, Presence)> = if chars_end_with(&rest, &present) {
        let k = crate::text::chars_range(&rest, 0, rest.len() - present.len());
        assert(k@ =~= rest@.take(rest@.len() - "Present"@.len()));
        Some((k, Presence::Value))
    } else if chars_end_with(&rest, &empty) {
        let k = crate::text::chars_range(&rest, 0, rest.len() - empty.len());
        assert(k@ =~= rest@.take(rest@.len() - "Empty"@.len()));
        Some((k, Presence::Empty))
    } else {
        None
    };
    match which {
        Some((k, want)) => {
            let mut i: usize = 0;
            while i < args.len()
                invariant
                    i <= args.len(),
                    rest@ == when@.skip("arg:"@.len() as int),
                    starts_with(when@, "arg:"@),
                    find_from(rest@, "IsValue:"@, 0) is None,
                    want == Presence::Value ==> ends_with(rest@, "Present"@),
                    want != Presence::Value ==> !ends_with(rest@, "Present"@) && ends_with(rest@, "Empty"@)
                        && want == Presence::Empty,
                    k@ == rest@.take(rest@.len() - (if want == Presence::Value {
                        "Present"@
                    } else {
                        "Empty"@
                    }).len()),
                    forall|q: int|
                        0 <= q < i ==> !(key_is(#[trigger] args@[q], k@) && args@[q].presence == want),
                decreases args.len() - i,
            {
                if slot_key_is(&args[i], &k) && args[i].presence == want {
                    proof {
                        let rest_s = when@.skip("arg:"@.len() as int);
                        assert(rest@ == rest_s);
                        if want == Presence::Value {
                            assert(k@ =~= rest_s.take(rest_s.len() - "Present"@.len()));
                        } else {
                            assert(k@ =~= rest_s.take(rest_s.len() - "Empty"@.len()));
                        }
                        assert(key_is(args@[i as int], k@));
                    }
                    return true;
                }
                i = i + 1;
            }
            proof {
                assert(k@ =~= rest@.take(rest@.len() - (if want == Presence::Value {
                    "Present"@
                } else {
                    "Empty"@
                }).len()));
            }
            false
        },
        None => false,
    }
}

proof fn lemma_find_bounds(s: Seq<char>, pat: Seq<char>, i: int)
    ensures
        find_from(s, pat, i) matches Some(j) ==> i <= j && j + pat.len() <= s.len(),
    decreases s.len() - i,
{
    if i >= 0 && i < s.len() && i + pat.len() <= s.len() && s.subrange(i, i + pat.len()) != pat {
        lemma_find_bounds(s, pat, i + 1);
    }
}

/// What a `profile:` predicate says of the profile (always false without
/// one): `profile:id:<ids>` (no ids, or one equal to the profile's id),
/// `profile:dpi:<values>`, `profile:feature:<gates>` (a gate the profile
/// declares present), `profile:featureMissing:<gates>` (one it declares
/// absent), `profile:firmware:<prefix>`, `profile:firmwareGte:<version>`
/// and `profile:model:<models>` (no models, or one contained in the id).
/// Lists are `|`-separated, trimmed, empty entries dropped.
pub open spec fn spec_profile_predicate(pred: Seq<char>, profile: Option<Profile>) -> bool {
    match profile {
        None => false,
        Some(p) => if starts_with(pred, "profile:id:"@) {
            let acc = accepted(pred.skip("profile:id:"@.len() as int));
            acc.len() == 0 || exists|i: int| 0 <= i < acc.len() && #[trigger] acc[i] == p.id@
        } else if starts_with(pred, "profile:dpi:"@) {
            let acc = accepted(pred.skip("profile:dpi:"@.len() as int));
            exists|i: int| 0 <= i < acc.len() && parse_unsigned(#[trigger] acc[i], u32::MAX as nat) == Some(p.dpi as nat)
        } else if starts_with(pred, "profile:feature:"@) {
            let acc = accepted(pred.skip("profile:feature:"@.len() as int));
            match p.features {
                Some(fs) => exists|i: int|
                    0 <= i < acc.len() && spec_resolve_gate(fs@, #[trigger] acc[i]) == Some(true),
                None => false,
            }
        } else if starts_with(pred, "profile:featureMissing:"@) {
            let acc = accepted(pred.skip("profile:featureMissing:"@.len() as int));
            match p.features {
                Some(fs) => exists|i: int|
                    0 <= i < acc.len() && spec_resolve_gate(fs@, #[trigger] acc[i]) == Some(false),
                None => false,
            }
        } else if starts_with(pred, "profile:firmware:"@) {
            match spec_firmware(p) {
                Some(fw) => starts_with(fw, trim(pred.skip("profile:firmware:"@.len() as int))),
                None => false,
            }
        } else if starts_with(pred, "profile:firmwareGte:"@) {
            match spec_firmware(p) {
                Some(fw) => spec_firmware_gte(fw, trim(pred.skip("profile:firmwareGte:"@.len() as int))),
                None => false,
            }
        } else if starts_with(pred, "profile:model:"@) {
            let acc = accepted(pred.skip("profile:model:"@.len() as int));
            acc.len() == 0 || exists|i: int|
                0 <= i < acc.len() && (find_from(p.id@, #[trigger] acc[i], 0) is Some || p.id@ == acc[i])
        } else {
            false
        },
    }
}

fn any_entry_eq(acc: &Vec<Vec<char>>, x: &Vec<char>) -> (r: bool)
    ensures
        r == exists|i: int| 0 <= i < acc@.len() && #[trigger] vv(acc@)[i] == x@,
{
    let mut i: usize = 0;
    while i < acc.len()
        invariant
            i <= acc.len(),
            forall|j: int| 0 <= j < i ==> #[trigger] vv(acc@)[j] != x@,
        decreases acc.len() - i,
    {
        assert(acc@[i as int]@ == vv(acc@)[i as int]);
        if chars_eq(&acc[i], x) {
            return true;
        }
        i = i + 1;
    }
    false
}

fn any_entry_number(acc: &Vec<Vec<char>>, n: u32) -> (r: bool)
    ensures
        r == exists|i: int|
            0 <= i < acc@.len() && parse_unsigned(#[trigger] vv(acc@)[i], u32::MAX as nat) == Some(n as nat),
{
    let mut i: usize = 0;
    while i < acc.len()
        invariant
            i <= acc.len(),
            forall|j: int|
                0 <= j < i ==> parse_unsigned(#[trigger] vv(acc@)[j], u32::MAX as nat) != Some(n as nat),
        decreases acc.len() - i,
    {
        assert(acc@[i as int]@ == vv(acc@)[i as int]);
        let e = string_from_chars(&acc[i]);
        if let Some(v) = parse_unsigned_exec(e.as_str(), 4294967295u64) {
            if v == n as u64 {
                return true;
            }
        }
        i = i + 1;
    }
    false
}

fn any_entry_gate(acc: &Vec<Vec<char>>, fs: &Vec<(String, bool)>, want: bool) -> (r: bool)
    ensures
        r == exists|i: int| 0 <= i < acc@.len() && spec_resolve_gate(fs@, #[trigger] vv(acc@)[i]) == Some(want),
{
    let mut i: usize = 0;
    while i < acc.len()
        invariant
            i <= acc.len(),
            forall|j: int| 0 <= j < i ==> spec_resolve_gate(fs@, #[trigger] vv(acc@)[j]) != Some(want),
        decreases acc.len() - i,
    {
        assert(acc@[i as int]@ == vv(acc@)[i as int]);
        if let Some(b) = resolve_gate(fs, &acc[i]) {
            if b == want {
                return true;
            }
        }
        i = i + 1;
    }
    false
}

fn any_entry_in(acc: &Vec<Vec<char>>, id: &Vec<char>) -> (r: bool)
    ensures
        r == exists|i: int|
            0 <= i < acc@.len() && (find_from(id@, #[trigger] vv(acc@)[i], 0) is Some || id@ == vv(acc@)[i]),
{
    let mut i: usize = 0;
    while i < acc.len()
        invariant
            i <= acc.len(),
            forall|j: int|
                0 <= j < i ==> !(find_from(id@, #[trigger] vv(acc@)[j], 0) is Some || id@ == vv(acc@)[j]),
        decreases acc.len() - i,
    {
        assert(acc@[i as int]@ == vv(acc@)[i as int]);
        let found = if id.len() > 0 {
            find_sub(id, &acc[i], 0).is_some()
        } else {
            false
        };
        if found || chars_eq(id, &acc[i]) {
            return true;
        }
        i = i + 1;
    }
    false
}

/// Evaluates a `profile:` predicate (see [`spec_profile_predicate`]).
pub fn profile_predicate_matches(predicate: &str, profile: Option<&Profile>) -> (r: bool)
    ensures
        r == spec_profile_predicate(predicate@, match profile {
            Some(p) => Some(*p),
            None => None,
        }),
{
    let p = match profile {
        Some(p) => p,
        None => {
            return false;
        },
    };
    let pred = chars_of(predicate);
    let id = chars_of(p.id.as_str());
    if let Some(rest) = strip_prefix(&pred, "profile:id:") {
        let acc = accepted_entries(&rest);
        return acc.len() == 0 || any_entry_eq(&acc, &id);
    }
    if let Some(rest) = strip_prefix(&pred, "profile:dpi:") {
        let acc = accepted_entries(&rest);
        return any_entry_number(&acc, p.dpi);
    }
    if let Some(rest) = strip_prefix(&pred, "profile:feature:") {
        let acc = accepted_entries(&rest);
        return match &p.features {
            Some(fs) => any_entry_gate(&acc, fs, true),
            None => false,
        };
    }
    if let Some(rest) = strip_prefix(&pred, "profile:featureMissing:") {
        let acc = accepted_entries(&rest);
        return match &p.features {
            Some(fs) => any_entry_gate(&acc, fs, false),
            None => false,
        };
    }
    let fw: Option<&String> = match &p.memory {
        Some(m) => match &m.firmware_version {
            Some(v) => Some(v),
            None => None,
        },
        None => None,
    };
    if let Some(rest) = strip_prefix(&pred, "profile:firmware:") {
        return match fw {
            Some(v) => {
                let vc = chars_of(v.as_str());
                let prefix = trim_chars(&rest);
                chars_start_with(&vc, &prefix)
            },
            None => false,
        };
    }
    if let Some(rest) = strip_prefix(&pred, "profile:firmwareGte:") {
        return match fw {
            Some(v) => {
                let min_ver = string_from_chars(&trim_chars(&rest));
                firmware_version_gte(v.as_str(), min_ver.as_str())
            },
            None => false,
        };
    }
    if let Some(rest) = strip_prefix(&pred, "profile:model:") {
        let acc = accepted_entries(&rest);
        return acc.len() == 0 || any_entry_in(&acc, &id);
    }
    false
}

/// What one term of a `when:` expression says: a trimmed, non-empty
/// predicate, optionally negated by a leading `!` (`arg:`, `label:has:`,
/// `label:missing:` or `profile:`; anything else is false).
pub open spec fn spec_note_term(
    term: Seq<char>,
    args: Seq<ArgSlot>,
    codes: Seq<String>,
    profile: Option<Profile>,
) -> bool {
    let token = trim(term);
    if token.len() == 0 {
        false
    } else {
        let negated = token[0] == '!';
        let pred = if negated {
            trim(token.drop_first())
        } else {
            token
        };
        let m = if starts_with(pred, "arg:"@) {
            spec_predicate_matches(pred, args)
        } else if starts_with(pred, "label:has:"@) {
            spec_any_target(pred.skip("label:has:"@.len() as int), codes)
        } else if starts_with(pred, "label:missing:"@) {
            !spec_any_target(pred.skip("label:missing:"@.len() as int), codes)
        } else if starts_with(pred, "profile:"@) {
            spec_profile_predicate(pred, profile)
        } else {
            false
        };
        if negated {
            !m
        } else {
            m
        }
    }
}

/// Every `&&`-separated term of `d` holds.
pub open spec fn spec_conjunction(
    d: Seq<char>,
    args: Seq<ArgSlot>,
    codes: Seq<String>,
    profile: Option<Profile>,
) -> bool {
    let terms = split_from(d, "&&"@, 0);
    forall|j: int| 0 <= j < terms.len() ==> spec_note_term(#[trigger] terms[j], args, codes, profile)
}

/// A `when:` expression: some `||`-separated part has all its `&&`-separated
/// terms true.
pub open spec fn spec_note_when(
    expr: Seq<char>,
    args: Seq<ArgSlot>,
    codes: Seq<String>,
    profile: Option<Profile>,
) -> bool {
    let ds = split_from(expr, "||"@, 0);
    exists|i: int| 0 <= i < ds.len() && spec_conjunction(#[trigger] ds[i], args, codes, profile)
}

fn note_term(term: &Vec<char>, args: &[ArgSlot], codes: &Vec<String>, profile: Option<&Profile>) -> (r: bool)
    ensures
        r == spec_note_term(term@, args@, codes@, match profile {
            Some(p) => Some(*p),
            None => None,
        }),
{
    let token = trim_chars(term);
    if token.len() == 0 {
        return false;
    }
    let negated = token[0] == '!';
    let pred = if negated {
        let after = chars_skip(&token, 1);
        assert(after@ =~= token@.drop_first());
        trim_chars(&after)
    } else {
        token
    };
    let arg_p = chars_of("arg:");
    let m = if chars_start_with(&pred, &arg_p) {
        let ps = string_from_chars(&pred);
        predicate_matches(ps.as_str(), args)
    } else if let Some(targets) = strip_prefix(&pred, "label:has:") {
        any_target_chars(&targets, codes)
    } else if let Some(targets) = strip_prefix(&pred, "label:missing:") {
        !any_target_chars(&targets, codes)
    } else {
        let prof_p = chars_of("profile:");
        if chars_start_with(&pred, &prof_p) {
            let ps = string_from_chars(&pred);
            profile_predicate_matches(ps.as_str(), profile)
        } else {
            false
        }
    };
    if negated {
        !m
    } else {
        m
    }
}

/// Evaluates a note's `when:` expression (see [`spec_note_when`]).
pub fn evaluate_note_when_expression(
    expression: &str,
    args: &[ArgSlot],
    label_codes: &Vec<String>,
    profile: Option<&Profile>,
) -> (r: bool)
    ensures
        r == spec_note_when(expression@, args@, label_codes@, match profile {
            Some(p) => Some(*p),
            None => None,
        }),
{
    let ghost prof = match profile {
        Some(p) => Some(*p),
        None => None,
    };
    let e = chars_of(expression);
    let or_sep = chars_of("||");
    let and_sep = chars_of("&&");
    proof {
        reveal_strlit("||");
        reveal_strlit("&&");
    }
    let ds = split_on(&e, &or_sep);
    let mut i: usize = 0;
    while i < ds.len()
        invariant
            i <= ds.len(),
            and_sep@ == "&&"@,
            and_sep@.len() == 2,
            vv(ds@) == split_from(expression@, "||"@, 0),
            prof == (match profile {
                Some(p) => Some(*p),
                None => None,
            }),
            forall|q: int| 0 <= q < i ==> !spec_conjunction(#[trigger] vv(ds@)[q], args@, label_codes@, prof),
        decreases ds.len() - i,
    {
        assert(ds@[i as int]@ == vv(ds@)[i as int]);
        let terms = split_on(&ds[i], &and_sep);
        let mut all = true;
        let mut j: usize = 0;
        while j < terms.len() && all
            invariant
                j <= terms.len(),
                vv(terms@) == split_from(vv(ds@)[i as int], "&&"@, 0),
                prof == (match profile {
                    Some(p) => Some(*p),
                    None => None,
                }),
                all ==> forall|q: int| 0 <= q < j ==> spec_note_term(#[trigger] vv(terms@)[q], args@, label_codes@, prof),
                !all ==> exists|q: int| 0 <= q < j && !spec_note_term(#[trigger] vv(terms@)[q], args@, label_codes@, prof),
            decreases terms.len() - j,
        {
            assert(terms@[j as int]@ == vv(terms@)[j as int]);
            if !note_term(&terms[j], args, label_codes, profile) {
                all = false;
            }
            j = j + 1;
        }
        if all {
            return true;
        }
        i = i + 1;
    }
    false
}

/// A firmware version that parses is at least itself.
pub proof fn law_firmware_gte_reflexive(v: Seq<char>)
    requires
        spec_parse_version(v) is Some,
    ensures
        spec_firmware_gte(v, v),
{
}

/// Any two firmware versions that parse are ordered one way or the other.
pub proof fn law_firmware_gte_total(a: Seq<char>, b: Seq<char>)
    requires
        spec_parse_version(a) is Some,
        spec_parse_version(b) is Some,
    ensures
        spec_firmware_gte(a, b) || spec_firmware_gte(b, a),
{
}

/// The firmware order is transitive.
pub proof fn law_firmware_gte_transitive(a: Seq<char>, b: Seq<char>, c: Seq<char>)
    requires
        spec_firmware_gte(a, b),
        spec_firmware_gte(b, c),
    ensures
        spec_firmware_gte(a, c),
{
}

/// A version that does not parse is never at least anything, nor is
/// anything at least it.
pub proof fn law_firmware_gte_needs_both(a: Seq<char>, b: Seq<char>)
    requires
        spec_parse_version(a) is None || spec_parse_version(b) is None,
    ensures
        !spec_firmware_gte(a, b),
{
}

} // verus!
