//! Decisions of the command-line front end that do not touch the outside
//! world: recognizing serial ports, Bluetooth addresses and USB ids,
//! pairing `tty`/`cu` device names, naming report artifacts, filtering
//! contextual notes and checking positive settings.

use crate::diag::{ctx_view, Diagnostic, Severity, Span, NOTE};
use crate::state::without_plus;
use crate::text::{decimal, join, usize_to_decimal, append_str, chars_eq, chars_of, chars_skip, chars_start_with, owned, starts_with, str_eq, string_from_chars};
use vstd::prelude::*;

verus! {

broadcast use vstd::seq::group_seq_axioms;

/// ASCII upper case of one character.
pub open spec fn upper(c: char) -> char {
    if 'a' <= c <= 'z' {
        ((c as u32) - 32) as char
    } else {
        c
    }
}

/// Every character is an ASCII digit.
pub open spec fn all_ascii_digits(s: Seq<char>) -> bool {
    forall|i: int| 0 <= i < s.len() ==> '0' <= #[trigger] s[i] <= '9'
}

/// Whether a printer address looks like a serial port: `/dev/tty*`,
/// `/dev/cu.*`, `/dev/rfcomm*`, `/dev/serial/*`, or `COM` (any case)
/// followed by one or more digits.
pub open spec fn spec_serial_port(a: Seq<char>) -> bool {
    starts_with(a, "/dev/tty"@) || starts_with(a, "/dev/cu."@) || starts_with(a, "/dev/rfcomm"@)
        || starts_with(a, "/dev/serial/"@) || (a.len() >= 4 && upper(a[0]) == 'C' && upper(a[1]) == 'O'
        && upper(a[2]) == 'M' && all_ascii_digits(a.skip(3)))
}

fn upper_exec(c: char) -> (r: char)
    ensures
        r == upper(c),
{
    if c >= 'a' && c <= 'z' {
        ((c as u32) - 32) as u8 as char
    } else {
        c
    }
}

/// Whether a printer address looks like a serial port path (see
/// [`spec_serial_port`]).
pub fn looks_like_serial_port(addr: &str) -> (r: bool)
    ensures
        r == spec_serial_port(addr@),
{
    let a = chars_of(addr);
    if chars_start_with(&a, &chars_of("/dev/tty")) || chars_start_with(&a, &chars_of("/dev/cu."))
        || chars_start_with(&a, &chars_of("/dev/rfcomm")) || chars_start_with(&a, &chars_of("/dev/serial/")) {
        return true;
    }
    if a.len() < 4 || upper_exec(a[0]) != 'C' || upper_exec(a[1]) != 'O' || upper_exec(a[2]) != 'M' {
        return false;
    }
    let digits = all_digits_from(&a, 3);
    assert(digits == all_ascii_digits(a@.skip(3)));
    digits
}

fn all_digits_from(a: &Vec<char>, from: usize) -> (r: bool)
    requires
        from <= a.len(),
    ensures
        r == all_ascii_digits(a@.skip(from as int)),
{
    let mut i: usize = from;
    while i < a.len()
        invariant
            from <= i <= a.len(),
            forall|k: int| from <= k < i ==> '0' <= #[trigger] a@[k] <= '9',
        decreases a.len() - i,
    {
        if !(a[i] >= '0' && a[i] <= '9') {
            assert(!('0' <= a@.skip(from as int)[i - from] <= '9'));
            return false;
        }
        i = i + 1;
    }
    assert(all_ascii_digits(a@.skip(from as int))) by {
        assert forall|k: int| 0 <= k < a@.skip(from as int).len() implies '0' <= #[trigger] a@.skip(from as int)[k]
            <= '9' by {
            assert(a@.skip(from as int)[k] == a@[k + from]);
        }
    }
    true
}

/// An ASCII hexadecimal digit.
pub open spec fn is_hex_char(c: char) -> bool {
    ('0' <= c <= '9') || ('a' <= c <= 'f') || ('A' <= c <= 'F')
}

/// Whether an address is a Bluetooth MAC: six groups of two hex digits,
/// joined all by `:` or all by `-` (`XX:XX:XX:XX:XX:XX`).
pub open spec fn spec_bluetooth_mac(a: Seq<char>) -> bool {
    &&& a.len() == 17
    &&& (a[2] == ':' || a[2] == '-')
    &&& forall|i: int|
        0 <= i < 17 ==> if i % 3 == 2 {
            #[trigger] a[i] == a[2]
        } else {
            is_hex_char(a[i])
        }
}

/// Whether an address is a Bluetooth MAC (see [`spec_bluetooth_mac`]).
pub fn looks_like_bluetooth_mac(addr: &str) -> (r: bool)
    ensures
        r == spec_bluetooth_mac(addr@),
{
    let a = chars_of(addr);
    if a.len() != 17 {
        return false;
    }
    let sep = a[2];
    if sep != ':' && sep != '-' {
        return false;
    }
    let mut i: usize = 0;
    while i < 17
        invariant
            i <= 17,
            a@ == addr@,
            a@.len() == 17,
            sep == a@[2],
            forall|k: int|
                0 <= k < i ==> if k % 3 == 2 {
                    #[trigger] a@[k] == sep
                } else {
                    is_hex_char(a@[k])
                },
        decreases 17 - i,
    {
        let c = a[i];
        if i % 3 == 2 {
            if c != sep {
                return false;
            }
        } else if !((c >= '0' && c <= '9') || (c >= 'a' && c <= 'f') || (c >= 'A' && c <= 'F')) {
            return false;
        }
        i = i + 1;
    }
    true
}

/// The macOS partner of a serial device: `/dev/cu.X` for `/dev/tty.X` and
/// the other way round.
pub open spec fn spec_tty_cu_peer(port: Seq<char>) -> Option<Seq<char>> {
    if starts_with(port, "/dev/cu."@) {
        Some("/dev/tty."@ + port.skip("/dev/cu."@.len() as int))
    } else if starts_with(port, "/dev/tty."@) {
        Some("/dev/cu."@ + port.skip("/dev/tty."@.len() as int))
    } else {
        None
    }
}

/// The `tty`/`cu` partner of a serial device name (see [`spec_tty_cu_peer`]).
pub fn mapped_tty_cu_peer(port: &str) -> (r: Option<String>)
    ensures
        match r {
            Some(s) => spec_tty_cu_peer(port@) == Some(s@),
            None => spec_tty_cu_peer(port@) is None,
        },
{
    let p = chars_of(port);
    let cu = chars_of("/dev/cu.");
    let tty = chars_of("/dev/tty.");
    if chars_start_with(&p, &cu) {
        let mut s = owned("/dev/tty.");
        append_str(&mut s, string_from_chars(&chars_skip(&p, cu.len())).as_str());
        return Some(s);
    }
    if chars_start_with(&p, &tty) {
        let mut s = owned("/dev/cu.");
        append_str(&mut s, string_from_chars(&chars_skip(&p, tty.len())).as_str());
        return Some(s);
    }
    None
}

/// The value of a hexadecimal digit.
pub open spec fn hex_char_value(c: char) -> nat {
    if '0' <= c <= '9' {
        ((c as u32) - 48) as nat
    } else if 'a' <= c <= 'f' {
        ((c as u32) - 87) as nat
    } else {
        ((c as u32) - 55) as nat
    }
}

/// The value of a string of hexadecimal digits.
pub open spec fn hex_digits_value(s: Seq<char>) -> nat
    decreases s.len(),
{
    if s.len() == 0 {
        0
    } else {
        hex_digits_value(s.drop_last()) * 16 + hex_char_value(s.last())
    }
}

/// Every character is a hexadecimal digit.
pub open spec fn all_hex(s: Seq<char>) -> bool {
    forall|i: int| 0 <= i < s.len() ==> is_hex_char(#[trigger] s[i])
}

/// A `u16` in hexadecimal as `u16::from_str_radix(s, 16)` reads it: an
/// optional `+`, then one or more hex digits, at most `0xFFFF`.
pub open spec fn spec_parse_hex_u16(s: Seq<char>) -> Option<nat> {
    let d = without_plus(s);
    if d.len() > 0 && all_hex(d) && hex_digits_value(d) <= 0xFFFF {
        Some(hex_digits_value(d))
    } else {
        None
    }
}

proof fn lemma_hex_step(s: Seq<char>, i: int)
    requires
        0 <= i < s.len(),
    ensures
        hex_digits_value(s.take(i + 1)) == hex_digits_value(s.take(i)) * 16 + hex_char_value(s[i]),
{
    assert(s.take(i + 1).drop_last() =~= s.take(i));
}

proof fn lemma_hex_mono(s: Seq<char>, i: int, j: int)
    requires
        0 <= i <= j <= s.len(),
    ensures
        hex_digits_value(s.take(i)) <= hex_digits_value(s.take(j)),
    decreases j - i,
{
    if i < j {
        lemma_hex_mono(s, i, j - 1);
        lemma_hex_step(s, j - 1);
    }
}

/// Reads a `u16` in hexadecimal (see [`spec_parse_hex_u16`]).
pub fn parse_hex_u16(s: &Vec<char>) -> (r: Option<u16>)
    ensures
        match r {
            Some(v) => spec_parse_hex_u16(s@) == Some(v as nat),
            None => spec_parse_hex_u16(s@) is None,
        },
{
    let start: usize = if s.len() > 0 && s[0] == '+' {
        1
    } else {
        0
    };
    let ghost d = without_plus(s@);
    assert(d =~= s@.subrange(start as int, s@.len() as int));
    if start >= s.len() {
        return None;
    }
    let mut acc: u64 = 0;
    let mut j: usize = start;
    while j < s.len()
        invariant
            start <= j <= s.len(),
            d == without_plus(s@),
            d =~= s@.subrange(start as int, s@.len() as int),
            acc <= 0xFFFF,
            forall|k: int| 0 <= k < j - start ==> is_hex_char(#[trigger] d[k]),
            acc as nat == hex_digits_value(d.take(j - start)),
        decreases s.len() - j,
    {
        let c = s[j];
        assert(d[j - start] == s@[j as int]);
        let v: u64 = if c >= '0' && c <= '9' {
            (c as u32 - 48) as u64
        } else if c >= 'a' && c <= 'f' {
            (c as u32 - 87) as u64
        } else if c >= 'A' && c <= 'F' {
            (c as u32 - 55) as u64
        } else {
            assert(!all_hex(d));
            return None;
        };
        proof {
            lemma_hex_step(d, j - start);
        }
        acc = acc * 16 + v;
        j = j + 1;
        if acc > 0xFFFF {
            proof {
                lemma_hex_mono(d, j - start, d.len() as int);
                assert(d.take(d.len() as int) =~= d);
            }
            return None;
        }
    }
    assert(d.take(d.len() as int) =~= d);
    Some(acc as u16)
}

/// The message for an address without `:`.
pub open spec fn usb_address_message(s: Seq<char>) -> Seq<char> {
    "invalid USB address '"@ + s + "': expected usb:VID:PID"@
}

/// The message for an unreadable vendor id.
pub open spec fn usb_vendor_message(v: Seq<char>) -> Seq<char> {
    "invalid USB vendor ID '"@ + v + "'"@
}

/// The message for an unreadable product id.
pub open spec fn usb_product_message(p: Seq<char>) -> Seq<char> {
    "invalid USB product ID '"@ + p + "'"@
}

/// The first index of `c` in `s`.
pub open spec fn first_index_of(s: Seq<char>, c: char) -> Option<int> {
    if exists|i: int| 0 <= i < s.len() && s[i] == c {
        Some(choose|i: int| 0 <= i < s.len() && s[i] == c && forall|k: int| 0 <= k < i ==> s[k] != c)
    } else {
        None
    }
}

/// What `VID:PID` (hexadecimal, split at the first `:`) gives: both ids,
/// or the error for the address, the vendor id or the product id.
pub open spec fn spec_usb_vidpid(s: Seq<char>) -> Result<(nat, nat), Seq<char>> {
    match first_index_of(s, ':') {
        None => Err(usb_address_message(s)),
        Some(k) => {
            let v = s.take(k);
            let p = s.skip(k + 1);
            match spec_parse_hex_u16(v) {
                None => Err(usb_vendor_message(v)),
                Some(a) => match spec_parse_hex_u16(p) {
                    None => Err(usb_product_message(p)),
                    Some(b) => Ok((a, b)),
                },
            }
        },
    }
}

fn quoted_message(head: &str, body: &Vec<char>, tail: &str) -> (r: String)
    ensures
        r@ == head@ + body@ + tail@,
{
    let mut m = owned(head);
    append_str(&mut m, string_from_chars(body).as_str());
    append_str(&mut m, tail);
    m
}

/// Parses a USB `VID:PID` pair like `0A5F:0100` (see [`spec_usb_vidpid`]).
pub fn parse_usb_vidpid(s: &str) -> (r: Result<(u16, u16), String>)
    ensures
        match r {
            Ok((a, b)) => spec_usb_vidpid(s@) == Ok::<(nat, nat), Seq<char>>((a as nat, b as nat)),
            Err(m) => spec_usb_vidpid(s@) == Err::<(nat, nat), Seq<char>>(m@),
        },
{
    let cs = chars_of(s);
    let mut k: usize = 0;
    while k < cs.len() && cs[k] != ':'
        invariant
            k <= cs.len(),
            cs@ == s@,
            forall|m: int| 0 <= m < k ==> cs@[m] != ':',
        decreases cs.len() - k,
    {
        k = k + 1;
    }
    if k == cs.len() {
        return Err(quoted_message("invalid USB address '", &cs, "': expected usb:VID:PID"));
    }
    assert(first_index_of(s@, ':') == Some(k as int)) by {
        assert(0 <= k < s@.len() && s@[k as int] == ':');
        let w = choose|i: int| 0 <= i < s@.len() && s@[i] == ':' && forall|m: int| 0 <= m < i ==> s@[m] != ':';
        if w < k {
            assert(s@[w] != ':');
        }
        if w > k {
            assert(s@[k as int] != ':');
        }
    }
    let v = crate::text::chars_range(&cs, 0, k);
    let p = chars_skip(&cs, k + 1);
    assert(v@ =~= s@.take(k as int));
    match parse_hex_u16(&v) {
        None => Err(quoted_message("invalid USB vendor ID '", &v, "'")),
        Some(a) => match parse_hex_u16(&p) {
            None => Err(quoted_message("invalid USB product ID '", &p, "'")),
            Some(b) => Ok((a, b)),
        },
    }
}

/// The artifact location a report names for an input file: `stdin` for
/// `-`, otherwise the path as given.
pub fn artifact_uri_for_file(file: &str) -> (r: String)
    ensures
        r@ == (if file@ == "-"@ {
            "stdin"@
        } else {
            file@
        }),
{
    if str_eq(file, "-") {
        owned("stdin")
    } else {
        owned(file)
    }
}

/// Which notes the command line shows.
#[derive(Debug, Clone, Copy, PartialEq, Eq, Structural)]
pub enum NoteAudienceMode {
    /// All notes.
    All,
    /// Only notes about problems (contextual notes are left out).
    Problem,
}

/// The value of the first context entry with key `k`.
pub open spec fn context_get(ctx: Seq<(String, String)>, k: Seq<char>) -> Option<Seq<char>>
    decreases ctx.len(),
{
    if ctx.len() == 0 {
        None
    } else if ctx[0].0@ == k {
        Some(ctx[0].1@)
    } else {
        context_get(ctx.drop_first(), k)
    }
}

/// Whether a diagnostic stays when contextual notes are left out: it is not
/// a note, or its audience is not `contextual`.
pub open spec fn keeps_for_problem(d: Diagnostic) -> bool {
    d.id@ != NOTE@ || match d.context {
        Some(ctx) => context_get(ctx@, "audience"@) != Some("contextual"@),
        None => true,
    }
}

/// The diagnostics that stay, in order.
pub open spec fn kept(s: Seq<Diagnostic>) -> Seq<Diagnostic>
    decreases s.len(),
{
    if s.len() == 0 {
        seq![]
    } else if keeps_for_problem(s.last()) {
        kept(s.drop_last()).push(s.last())
    } else {
        kept(s.drop_last())
    }
}

fn audience_is_contextual(ctx: &Vec<(String, String)>) -> (r: bool)
    ensures
        r == (context_get(ctx@, "audience"@) == Some("contextual"@)),
{
    let key = chars_of("audience");
    let mut i: usize = 0;
    assert(ctx@.skip(0) =~= ctx@);
    while i < ctx.len()
        invariant
            i <= ctx.len(),
            key@ == "audience"@,
            context_get(ctx@, "audience"@) == context_get(ctx@.skip(i as int), "audience"@),
        decreases ctx.len() - i,
    {
        assert(ctx@.skip(i as int).drop_first() =~= ctx@.skip(i + 1));
        if chars_eq(&chars_of(ctx[i].0.as_str()), &key) {
            return str_eq(ctx[i].1.as_str(), "contextual");
        }
        i = i + 1;
    }
    false
}

fn keeps_exec(d: &Diagnostic) -> (r: bool)
    ensures
        r == keeps_for_problem(*d),
{
    if !str_eq(d.id.as_str(), NOTE) {
        return true;
    }
    match &d.context {
        Some(ctx) => !audience_is_contextual(ctx),
        None => true,
    }
}

/// Leaves out contextual notes unless all notes are wanted.
pub fn filter_contextual_notes(issues: &mut Vec<Diagnostic>, note_audience: NoteAudienceMode)
    ensures
        final(issues)@ == (if note_audience == NoteAudienceMode::All {
            old(issues)@
        } else {
            kept(old(issues)@)
        }),
{
    if note_audience == NoteAudienceMode::All {
        return;
    }
    let mut rest: Vec<Diagnostic> = Vec::new();
    std::mem::swap(&mut rest, issues);
    let ghost all = rest@;
    let n = rest.len();
    let mut i: usize = 0;
    while rest.len() > 0
        invariant
            all.len() == n,
            i <= all.len(),
            rest@ == all.skip(i as int),
            issues@ == kept(all.take(i as int)),
        decreases rest.len(),
    {
        let d = rest.remove(0);
        assert(d == all[i as int]);
        assert(all.take(i + 1).drop_last() =~= all.take(i as int));
        assert(all.take(i + 1).last() == all[i as int]);
        if keeps_exec(&d) {
            issues.push(d);
        }
        i = i + 1;
        assert(rest@ =~= all.skip(i as int));
    }
    assert(all.take(i as int) =~= all);
}

/// A positive setting in milliseconds, or the error naming it.
pub fn ensure_nonzero(name: &str, value: u64) -> (r: Result<u64, String>)
    ensures
        value > 0 ==> r == Ok::<u64, String>(value),
        value == 0 ==> (r matches Err(m) && m@ == name@ + " must be > 0"@),
{
    if value == 0 {
        let mut m = owned(name);
        append_str(&mut m, " must be > 0");
        return Err(m);
    }
    Ok(value)
}

proof fn lemma_kept_all_kept(s: Seq<Diagnostic>)
    ensures
        forall|i: int| 0 <= i < kept(s).len() ==> keeps_for_problem(#[trigger] kept(s)[i]),
    decreases s.len(),
{
    if s.len() > 0 {
        lemma_kept_all_kept(s.drop_last());
        let k0 = kept(s.drop_last());
        if keeps_for_problem(s.last()) {
            assert forall|i: int| 0 <= i < kept(s).len() implies keeps_for_problem(#[trigger] kept(s)[i]) by {
                if i < k0.len() {
                    assert(kept(s)[i] == k0[i]);
                }
            }
        }
    }
}

proof fn lemma_kept_of_kept(s: Seq<Diagnostic>)
    requires
        forall|i: int| 0 <= i < s.len() ==> keeps_for_problem(#[trigger] s[i]),
    ensures
        kept(s) == s,
    decreases s.len(),
{
    if s.len() > 0 {
        lemma_kept_of_kept(s.drop_last());
        assert(s.drop_last().push(s.last()) =~= s);
    }
}

/// Leaving out contextual notes twice leaves the same diagnostics as doing
/// it once.
pub proof fn law_note_filter_idempotent(s: Seq<Diagnostic>)
    ensures
        kept(kept(s)) == kept(s),
{
    lemma_kept_all_kept(s);
    lemma_kept_of_kept(kept(s));
}

/// The filter keeps every diagnostic that is not a note, in order: no
/// finding about a problem is lost.
pub proof fn law_note_filter_keeps_non_notes(s: Seq<Diagnostic>)
    ensures
        kept(s).len() <= s.len(),
        forall|d: Diagnostic| d.id@ != NOTE@ && s.contains(d) ==> kept(s).contains(d),
    decreases s.len(),
{
    if s.len() > 0 {
        law_note_filter_keeps_non_notes(s.drop_last());
        assert forall|d: Diagnostic| d.id@ != NOTE@ && s.contains(d) implies kept(s).contains(d) by {
            if d == s.last() {
                assert(kept(s).last() == d);
            } else {
                let i = choose|i: int| 0 <= i < s.len() && s[i] == d;
                assert(s.drop_last()[i] == d);
                assert(s.drop_last().contains(d));
                let j = choose|j: int| 0 <= j < kept(s.drop_last()).len() && kept(s.drop_last())[j] == d;
                if keeps_for_problem(s.last()) {
                    assert(kept(s)[j] == d);
                }
            }
        }
    }
}

/// The number of diagnostics of severity `sev`.
pub open spec fn severity_count(ds: Seq<Diagnostic>, sev: Severity) -> nat
    decreases ds.len(),
{
    if ds.len() == 0 {
        0
    } else {
        severity_count(ds.drop_last(), sev) + if ds.last().severity == sev {
            1nat
        } else {
            0nat
        }
    }
}

/// `n` followed by `word`, with an `s` when `plural` is set and `n` is not 1.
pub open spec fn count_text(n: nat, word: Seq<char>, plural: bool) -> Seq<char> {
    decimal(n) + " "@ + word + if plural && n != 1 {
        "s"@
    } else {
        seq![]
    }
}

/// The parts of a summary line: errors, warnings and infos, each when there
/// are any, with the severity that colours it.
pub open spec fn spec_summary_parts(ds: Seq<Diagnostic>) -> Seq<(Severity, Seq<char>)> {
    let e = severity_count(ds, Severity::Error);
    let w = severity_count(ds, Severity::Warn);
    let i = severity_count(ds, Severity::Info);
    (if e > 0 {
        seq![(Severity::Error, count_text(e, "error"@, true))]
    } else {
        seq![]
    }) + (if w > 0 {
        seq![(Severity::Warn, count_text(w, "warning"@, true))]
    } else {
        seq![]
    }) + (if i > 0 {
        seq![(Severity::Info, count_text(i, "info"@, false))]
    } else {
        seq![]
    })
}

fn count_part(n: usize, word: &str, plural: bool) -> (r: String)
    ensures
        r@ == count_text(n as nat, word@, plural),
{
    let mut s = usize_to_decimal(n);
    append_str(&mut s, " ");
    append_str(&mut s, word);
    if plural && n != 1 {
        append_str(&mut s, "s");
    }
    proof {
        reveal_strlit("s");
    }
    s
}

/// The parts of the summary line for `diagnostics` (such as `2 errors`,
/// `1 warning`, `3 info`), each with its severity; none when there are no
/// diagnostics.
pub fn summary_parts(diagnostics: &Vec<Diagnostic>) -> (r: Vec<(Severity, String)>)
    ensures
        r@.map_values(|p: (Severity, String)| (p.0, p.1@)) == spec_summary_parts(diagnostics@),
{
    let mut e: usize = 0;
    let mut w: usize = 0;
    let mut i: usize = 0;
    let mut k: usize = 0;
    while k < diagnostics.len()
        invariant
            k <= diagnostics@.len(),
            e == severity_count(diagnostics@.take(k as int), Severity::Error),
            w == severity_count(diagnostics@.take(k as int), Severity::Warn),
            i == severity_count(diagnostics@.take(k as int), Severity::Info),
            e + w + i == k,
        decreases diagnostics.len() - k,
    {
        proof {
            assert(diagnostics@.take(k + 1).drop_last() =~= diagnostics@.take(k as int));
        }
        match diagnostics[k].severity {
            Severity::Error => e = e + 1,
            Severity::Warn => w = w + 1,
            Severity::Info => i = i + 1,
        }
        k = k + 1;
    }
    assert(diagnostics@.take(diagnostics@.len() as int) =~= diagnostics@);
    let mut r: Vec<(Severity, String)> = Vec::new();
    if e > 0 {
        r.push((Severity::Error, count_part(e, "error", true)));
    }
    if w > 0 {
        r.push((Severity::Warn, count_part(w, "warning", true)));
    }
    if i > 0 {
        r.push((Severity::Info, count_part(i, "info", false)));
    }
    assert(r@.map_values(|p: (Severity, String)| (p.0, p.1@)) =~= spec_summary_parts(diagnostics@));
    r
}

/// `key=value` for each context entry, joined with `", "`.
pub open spec fn context_text(c: Seq<(Seq<char>, Seq<char>)>) -> Seq<char> {
    join(c.map_values(|p: (Seq<char>, Seq<char>)| p.0 + "="@ + p.1), ", "@)
}

fn context_text_exec(c: &Vec<(String, String)>) -> (r: String)
    ensures
        r@ == context_text(ctx_view(c@)),
{
    let ghost parts = ctx_view(c@).map_values(|p: (Seq<char>, Seq<char>)| p.0 + "="@ + p.1);
    let mut r = String::new();
    let mut i: usize = 0;
    while i < c.len()
        invariant
            i <= c@.len(),
            parts == ctx_view(c@).map_values(|p: (Seq<char>, Seq<char>)| p.0 + "="@ + p.1),
            r@ == join(parts.take(i as int), ", "@),
        decreases c.len() - i,
    {
        proof {
            assert(parts.take(i + 1).drop_last() =~= parts.take(i as int));
            assert(parts.take(i + 1).last() == parts[i as int]);
            assert(parts[i as int] == c@[i as int].0@ + "="@ + c@[i as int].1@);
        }
        if i > 0 {
            append_str(&mut r, ", ");
        } else {
            proof {
                assert(parts.take(0).len() == 0);
                assert(r@ =~= seq![]);
            }
        }
        append_str(&mut r, c[i].0.as_str());
        append_str(&mut r, "=");
        append_str(&mut r, c[i].1.as_str());
        i = i + 1;
        proof {
            if i == 1 {
                assert(r@ =~= parts[0]);
            }
        }
    }
    assert(parts.take(c@.len() as int) =~= parts);
    r
}

/// The note a report adds for a diagnostic's context: its entries as
/// `key=value`, when it has a context.
pub fn context_note(d: &Diagnostic) -> (r: Option<String>)
    ensures
        match d.context {
            Some(c) => r matches Some(s) && s@ == context_text(ctx_view(c@)),
            None => r is None,
        },
{
    match &d.context {
        Some(c) => Some(context_text_exec(c)),
        None => None,
    }
}

/// The text a report puts on a diagnostic's source label: its context as
/// `key=value` pairs when it has a non-empty one, else its message.
pub fn label_message(d: &Diagnostic) -> (r: String)
    ensures
        r@ == match d.context {
            Some(c) => if c@.len() > 0 {
                context_text(ctx_view(c@))
            } else {
                d.message@
            },
            None => d.message@,
        },
{
    match &d.context {
        Some(c) => {
            if c.len() > 0 {
                context_text_exec(c)
            } else {
                owned(d.message.as_str())
            }
        },
        None => owned(d.message.as_str()),
    }
}

/// A span clamped to a source of `len` bytes: both ends at most `len`, and
/// the end not before the start.
pub fn clamp_span(span: Span, len: usize) -> (r: (usize, usize))
    ensures
        r.0 == if span.start < len {
            span.start
        } else {
            len
        },
        r.1 == if (if span.end < len {
            span.end
        } else {
            len
        }) < r.0 {
            r.0
        } else if span.end < len {
            span.end
        } else {
            len
        },
{
    let start = if span.start < len {
        span.start
    } else {
        len
    };
    let end0 = if span.end < len {
        span.end
    } else {
        len
    };
    let end = if end0 < start {
        start
    } else {
        end0
    };
    (start, end)
}

/// The word for a severity in reports without a source excerpt.
pub open spec fn severity_word(s: Severity) -> Seq<char> {
    match s {
        Severity::Error => "error"@,
        Severity::Warn => "warning"@,
        Severity::Info => "info"@,
    }
}

/// The one-line report of a diagnostic without a span:
/// `severity[id]: message`.
pub fn plain_report_line(d: &Diagnostic) -> (r: String)
    ensures
        r@ == severity_word(d.severity) + "["@ + d.id@ + "]: "@ + d.message@,
{
    let word = match d.severity {
        Severity::Error => "error",
        Severity::Warn => "warning",
        Severity::Info => "info",
    };
    let mut r = owned(word);
    append_str(&mut r, "[");
    append_str(&mut r, d.id.as_str());
    append_str(&mut r, "]: ");
    append_str(&mut r, d.message.as_str());
    r
}

} // verus!
