//! Decisions of the printer probes: the `getvar` request for a printer
//! setting and the value read from its reply, the classification of
//! transport errors, and the verdict of a serial probe.

use crate::arg_checks::lower;
use crate::text::{chars_of, chars_range, string_from_chars, trim, trim_chars};
use vstd::prelude::*;

verus! {

broadcast use vstd::seq::group_seq_axioms;

// ---------------------------------------------------------------------------
// Settings over SGD
// ---------------------------------------------------------------------------

/// The SGD request that reads setting `var`: `! U1 getvar "var"` and CR LF.
pub open spec fn getvar_text(var: Seq<char>) -> Seq<char> {
    "! U1 getvar \""@ + var + "\"\r\n"@
}

/// The SGD request that reads setting `var`.
pub fn getvar_command(var: &str) -> (r: String)
    ensures
        r@ == getvar_text(var@),
{
    let mut v = chars_of("! U1 getvar \"");
    let tail = chars_of("\"\r\n");
    let mid = chars_of(var);
    let mut i: usize = 0;
    let ghost head = v@;
    while i < mid.len()
        invariant
            i <= mid@.len(),
            v@ == head + mid@.subrange(0, i as int),
        decreases mid.len() - i,
    {
        v.push(mid[i]);
        i = i + 1;
        assert(v@ =~= head + mid@.subrange(0, i as int));
    }
    let ghost body = v@;
    let mut j: usize = 0;
    while j < tail.len()
        invariant
            j <= tail@.len(),
            v@ == body + tail@.subrange(0, j as int),
        decreases tail.len() - j,
    {
        v.push(tail[j]);
        j = j + 1;
        assert(v@ =~= body + tail@.subrange(0, j as int));
    }
    assert(mid@.subrange(0, mid@.len() as int) =~= mid@);
    assert(tail@.subrange(0, tail@.len() as int) =~= tail@);
    assert(v@ =~= getvar_text(var@));
    string_from_chars(&v)
}

/// The index of the last line feed in `s`, or -1.
pub open spec fn last_newline(s: Seq<char>) -> int
    decreases s.len(),
{
    if s.len() == 0 {
        -1
    } else if s.last() == '\n' {
        s.len() - 1
    } else {
        last_newline(s.drop_last())
    }
}

/// The last line of `s` that holds more than whitespace, trimmed.
pub open spec fn last_value_line(s: Seq<char>) -> Option<Seq<char>>
    decreases s.len(),
{
    let j = last_newline(s);
    let line = trim(s.subrange(j + 1, s.len() as int));
    if line.len() > 0 {
        Some(line)
    } else if j < 0 {
        None
    } else {
        proof {
            lemma_last_newline_bounds(s);
        }
        last_value_line(s.subrange(0, j))
    }
}

/// Where the last line feed of `s` can be.
pub proof fn lemma_last_newline_bounds(s: Seq<char>)
    ensures
        -1 <= last_newline(s) < s.len(),
        last_newline(s) >= 0 ==> s[last_newline(s)] == '\n',
        forall|k: int| last_newline(s) < k < s.len() ==> s[k] != '\n',
    decreases s.len(),
{
    if s.len() > 0 && s.last() != '\n' {
        let w = s.drop_last();
        lemma_last_newline_bounds(w);
        assert forall|k: int| last_newline(s) < k < s.len() implies s[k] != '\n' by {
            if k < s.len() - 1 {
                assert(s[k] == w[k]);
            }
        }
    }
}

/// The value a reply to a `getvar` request gives: the last line of the
/// trimmed reply that holds more than whitespace, trimmed.
pub fn getvar_value(reply: &str) -> (r: Option<String>)
    ensures
        match r {
            Some(v) => last_value_line(trim(reply@)) == Some(v@),
            None => last_value_line(trim(reply@)) is None,
        },
{
    let t = trim_chars(&chars_of(reply));
    let mut end = t.len();
    assert(t@.subrange(0, end as int) =~= t@);
    loop
        invariant
            end <= t@.len(),
            last_value_line(trim(reply@)) == last_value_line(t@.subrange(0, end as int)),
            t@ == trim(reply@),
        decreases end,
    {
        let ghost s = t@.subrange(0, end as int);
        let mut j = end;
        while j > 0 && t[j - 1] != '\n'
            invariant
                j <= end <= t@.len(),
                forall|k: int| j <= k < end ==> t@[k] != '\n',
            decreases j,
        {
            j = j - 1;
        }
        proof {
            lemma_last_newline_bounds(s);
            let ln = last_newline(s);
            if j > 0 {
                assert(s[j - 1] == '\n');
                assert(ln == j - 1) by {
                    if ln < j - 1 {
                        assert(s[j - 1] != '\n');
                    }
                    if ln > j - 1 {
                        assert(t@[ln] == s[ln]);
                    }
                }
            } else {
                assert(ln == -1) by {
                    if ln >= 0 {
                        assert(t@[ln] == s[ln]);
                    }
                }
            }
            assert(s.subrange(ln + 1, s.len() as int) =~= t@.subrange(j as int, end as int));
        }
        let line = trim_chars(&chars_range(&t, j, end));
        if line.len() > 0 {
            return Some(string_from_chars(&line));
        }
        if j == 0 {
            return None;
        }
        proof {
            assert(s.subrange(0, j - 1) =~= t@.subrange(0, j - 1));
        }
        end = j - 1;
    }
}

// ---------------------------------------------------------------------------
// Transport errors
// ---------------------------------------------------------------------------

/// `s` with ASCII letters in lower case.
pub open spec fn ascii_lower(s: Seq<char>) -> Seq<char> {
    s.map_values(|c: char| lower(c))
}

/// `t` occurs in `s`.
pub open spec fn has_sub(s: Seq<char>, t: Seq<char>) -> bool {
    exists|i: int| 0 <= i && i + t.len() <= s.len() && #[trigger] s.subrange(i, i + t.len()) == t
}

fn lower_chars(s: &str) -> (r: Vec<char>)
    ensures
        r@ == ascii_lower(s@),
{
    let v = chars_of(s);
    let mut r: Vec<char> = Vec::new();
    let mut i: usize = 0;
    while i < v.len()
        invariant
            i <= v@.len(),
            v@ == s@,
            r@ == ascii_lower(v@.subrange(0, i as int)),
        decreases v.len() - i,
    {
        let c = v[i];
        let l = if c >= 'A' && c <= 'Z' {
            ((c as u8) + 32) as char
        } else {
            c
        };
        r.push(l);
        i = i + 1;
        assert(r@ =~= ascii_lower(v@.subrange(0, i as int)));
    }
    assert(v@.subrange(0, v@.len() as int) =~= v@);
    r
}

fn contains_sub(s: &Vec<char>, t: &str) -> (r: bool)
    ensures
        r == has_sub(s@, t@),
{
    let p = chars_of(t);
    let n = s.len();
    let m = p.len();
    if m > n {
        assert forall|i: int| 0 <= i && i + p@.len() <= s@.len() implies #[trigger] s@.subrange(i, i + p@.len()) != p@ by {}
        return false;
    }
    let mut i: usize = 0;
    while i <= n - m
        invariant
            m == p@.len(),
            n == s@.len(),
            p@ == t@,
            m <= n,
            i <= n - m + 1,
            forall|k: int| 0 <= k < i ==> #[trigger] s@.subrange(k, k + m) != p@,
        decreases n - i,
    {
        let mut j: usize = 0;
        while j < m && s[i + j] == p[j]
            invariant
                j <= m,
                i + m <= n,
                m == p@.len(),
                n == s@.len(),
                forall|q: int| 0 <= q < j ==> s@[i + q] == p@[q],
            decreases m - j,
        {
            j = j + 1;
        }
        if j == m {
            assert(s@.subrange(i as int, i + m) =~= p@);
            return true;
        }
        assert(s@.subrange(i as int, i + m)[j as int] != p@[j as int]);
        i = i + 1;
    }
    false
}

/// A transport error whose message speaks of a timeout.
pub open spec fn timeout_message(msg: Seq<char>) -> bool {
    has_sub(ascii_lower(msg), "timed out"@) || has_sub(ascii_lower(msg), "timeout"@)
}

/// Whether an error message speaks of a timeout (`timed out` or `timeout`,
/// in any ASCII case).
pub fn is_timeout_error(msg: &str) -> (r: bool)
    ensures
        r == timeout_message(msg@),
{
    let l = lower_chars(msg);
    contains_sub(&l, "timed out") || contains_sub(&l, "timeout")
}

/// Whether an error message speaks of a broken pipe, in any ASCII case.
pub fn is_broken_pipe_error(msg: &str) -> (r: bool)
    ensures
        r == has_sub(ascii_lower(msg@), "broken pipe"@),
{
    let l = lower_chars(msg);
    contains_sub(&l, "broken pipe")
}

// ---------------------------------------------------------------------------
// The verdict of a serial probe
// ---------------------------------------------------------------------------

/// The diagnosis of a serial probe: reads that worked on every attempt
/// (status and info), reads that worked only sometimes, a write path with
/// no reply, or no working transport.
pub open spec fn spec_probe_diagnosis(
    read_ok: bool,
    test_label_sent: bool,
    status_successes: nat,
    info_successes: nat,
    repeat: nat,
) -> Seq<char> {
    if read_ok {
        if status_successes + info_successes < repeat * 2 {
            "intermittent_bidirectional_serial"@
        } else {
            "bidirectional_serial_ok"@
        }
    } else if test_label_sent {
        "write_path_only_or_response_blocked"@
    } else {
        "serial_transport_not_viable_with_current_settings"@
    }
}

/// The diagnosis of a serial probe (see [`spec_probe_diagnosis`]).
pub fn probe_diagnosis(
    read_ok: bool,
    test_label_sent: bool,
    status_successes: u32,
    info_successes: u32,
    repeat: u32,
) -> (r: &'static str)
    ensures
        r@ == spec_probe_diagnosis(
            read_ok,
            test_label_sent,
            status_successes as nat,
            info_successes as nat,
            repeat as nat,
        ),
{
    if read_ok {
        if (status_successes as u64) + (info_successes as u64) < (repeat as u64) * 2 {
            "intermittent_bidirectional_serial"
        } else {
            "bidirectional_serial_ok"
        }
    } else if test_label_sent {
        "write_path_only_or_response_blocked"
    } else {
        "serial_transport_not_viable_with_current_settings"
    }
}

/// Whether a serial probe succeeded: every attempt had a success when that
/// is required; else the success ratio met the requested minimum, when one
/// was requested (`ratio_met`); else some read or test label worked.
pub fn probe_success(
    require_all_attempts: bool,
    attempts_with_any_success: u32,
    repeat: u32,
    ratio_met: Option<bool>,
    any_success: bool,
) -> (r: bool)
    ensures
        r == if require_all_attempts {
            attempts_with_any_success == repeat
        } else {
            match ratio_met {
                Some(b) => b,
                None => any_success,
            }
        },
{
    if require_all_attempts {
        attempts_with_any_success == repeat
    } else {
        match ratio_met {
            Some(b) => b,
            None => any_success,
        }
    }
}

// ---------------------------------------------------------------------------
// Bluetooth status over SGD: the decisions of the query loop
// ---------------------------------------------------------------------------

/// The Bluetooth settings the status query reads, in order.
pub fn bt_status_vars() -> (r: Vec<String>)
    ensures
        r@.len() == 6,
        r@[0]@ == "bluetooth.enable"@,
        r@[1]@ == "bluetooth.discoverable"@,
        r@[2]@ == "bluetooth.bonding"@,
        r@[3]@ == "bluetooth.minimum_security_mode"@,
        r@[4]@ == "bluetooth.authentication"@,
        r@[5]@ == "bluetooth.bluetooth_pin"@,
{
    let mut v: Vec<String> = Vec::new();
    v.push(crate::text::owned("bluetooth.enable"));
    v.push(crate::text::owned("bluetooth.discoverable"));
    v.push(crate::text::owned("bluetooth.bonding"));
    v.push(crate::text::owned("bluetooth.minimum_security_mode"));
    v.push(crate::text::owned("bluetooth.authentication"));
    v.push(crate::text::owned("bluetooth.bluetooth_pin"));
    v
}

/// What a status query runs over: the settings to read and the number of
/// attempts per setting.
pub struct BtPlan {
    pub vars: Vec<String>,
    pub retries: u32,
}

/// The outcome for one setting: its value, the last error, and whether a
/// read timed out.
pub struct BtVarResult {
    pub name: String,
    pub value: Option<String>,
    pub error: Option<String>,
    pub timeout: bool,
}

/// Where a status query stands: the setting being read and its attempt,
/// what that setting has so far, whether any setting failed, and the
/// outcomes of the settings done.
pub struct BtPoll {
    pub var_index: usize,
    pub attempt: u32,
    pub value: Option<String>,
    pub error: Option<String>,
    pub timeout_hit: bool,
    pub had_errors: bool,
    pub results: Vec<BtVarResult>,
}

/// What the transport reports back.
pub enum BtEvent {
    /// The query begins.
    Start,
    /// The connection was made.
    Connected,
    /// The connection failed, with the error's text.
    ConnectFailed(String),
    /// Setting the read (or the write) timeout failed.
    SetupFailed { read: bool, message: String },
    /// The request was written and flushed.
    Written,
    /// Writing (or, with `flush`, flushing) the request failed.
    WriteFailed { flush: bool, message: String },
    /// Reading ended: what was read, whether a read timed out, and the
    /// error that ended it, if any.
    ReadDone { reply: String, timed_out: bool, error: Option<String> },
    /// The pause between attempts is over.
    Slept,
}

/// What the transport is asked to do next.
pub enum BtAction {
    /// Connect to the printer.
    Connect,
    /// Write this request.
    Write(String),
    /// Read the reply.
    Read,
    /// Pause before the next attempt.
    Sleep,
    /// Stop: the query succeeded when the flag is set.
    Finish(bool),
}

/// An optional string as plain characters.
pub open spec fn opt_chars(o: Option<String>) -> Option<Seq<char>> {
    match o {
        Some(s) => Some(s@),
        None => None,
    }
}

/// The outcome for one setting as plain values.
pub struct BtVarView {
    pub name: Seq<char>,
    pub value: Option<Seq<char>>,
    pub error: Option<Seq<char>>,
    pub timeout: bool,
}

/// The query state as plain values.
pub struct BtPollView {
    pub var_index: int,
    pub attempt: int,
    pub value: Option<Seq<char>>,
    pub error: Option<Seq<char>>,
    pub timeout_hit: bool,
    pub had_errors: bool,
    pub results: Seq<BtVarView>,
}

/// An action as plain values.
pub enum BtActionView {
    Connect,
    Write(Seq<char>),
    Read,
    Sleep,
    Finish(bool),
}

/// An event as plain values.
pub enum BtEventView {
    Start,
    Connected,
    ConnectFailed(Seq<char>),
    SetupFailed(bool, Seq<char>),
    Written,
    WriteFailed(bool, Seq<char>),
    ReadDone(Seq<char>, bool, Option<Seq<char>>),
    Slept,
}

/// The plain view of a state.
pub open spec fn bt_poll_view(s: BtPoll) -> BtPollView {
    BtPollView {
        var_index: s.var_index as int,
        attempt: s.attempt as int,
        value: opt_chars(s.value),
        error: opt_chars(s.error),
        timeout_hit: s.timeout_hit,
        had_errors: s.had_errors,
        results: s.results@.map_values(
            |r: BtVarResult|
                BtVarView { name: r.name@, value: opt_chars(r.value), error: opt_chars(r.error), timeout: r.timeout },
        ),
    }
}

/// The plain view of an action.
pub open spec fn bt_action_view(a: BtAction) -> BtActionView {
    match a {
        BtAction::Connect => BtActionView::Connect,
        BtAction::Write(w) => BtActionView::Write(w@),
        BtAction::Read => BtActionView::Read,
        BtAction::Sleep => BtActionView::Sleep,
        BtAction::Finish(ok) => BtActionView::Finish(ok),
    }
}

/// The plain view of an event.
pub open spec fn bt_event_view(e: BtEvent) -> BtEventView {
    match e {
        BtEvent::Start => BtEventView::Start,
        BtEvent::Connected => BtEventView::Connected,
        BtEvent::ConnectFailed(m) => BtEventView::ConnectFailed(m@),
        BtEvent::SetupFailed { read, message } => BtEventView::SetupFailed(read, message@),
        BtEvent::Written => BtEventView::Written,
        BtEvent::WriteFailed { flush, message } => BtEventView::WriteFailed(flush, message@),
        BtEvent::ReadDone { reply, timed_out, error } => BtEventView::ReadDone(reply@, timed_out, opt_chars(error)),
        BtEvent::Slept => BtEventView::Slept,
    }
}

/// The step's result as plain values.
pub open spec fn bt_step_view(s: BtPoll, a: BtAction) -> (BtPollView, BtActionView) {
    (bt_poll_view(s), bt_action_view(a))
}

/// Begins setting `i`: with no settings left the query finishes,
/// succeeding when no setting failed; with no attempts allowed the
/// setting gets "no response" and the next one begins; otherwise its first
/// attempt connects.
pub open spec fn bt_begin(vars: Seq<Seq<char>>, retries: int, s: BtPollView, i: int) -> (BtPollView, BtActionView)
    decreases vars.len() - i,
{
    if i >= vars.len() || i < 0 {
        (BtPollView { var_index: i, ..s }, BtActionView::Finish(!s.had_errors))
    } else if retries == 0 {
        let r = BtVarView { name: vars[i], value: None, error: Some("no response"@), timeout: false };
        bt_begin(vars, retries, BtPollView { had_errors: true, results: s.results.push(r), ..s }, i + 1)
    } else {
        (
            BtPollView { var_index: i, attempt: 1, value: None, error: None, timeout_hit: false, ..s },
            BtActionView::Connect,
        )
    }
}

/// Ends the current setting: a setting with neither value nor error gets
/// "no response" (a failure); its outcome is recorded and the next one
/// begins.
pub open spec fn bt_end_var(vars: Seq<Seq<char>>, retries: int, s: BtPollView) -> (BtPollView, BtActionView) {
    let no_reply = s.value is None && s.error is None;
    let error = if no_reply {
        Some("no response"@)
    } else {
        s.error
    };
    let r = BtVarView { name: vars[s.var_index], value: s.value, error, timeout: s.timeout_hit };
    bt_begin(
        vars,
        retries,
        BtPollView { error, had_errors: s.had_errors || no_reply, results: s.results.push(r), ..s },
        s.var_index + 1,
    )
}

/// A failed attempt with `error`: the next attempt follows a pause while
/// attempts are left; after the last one the setting has failed.
pub open spec fn bt_retry(vars: Seq<Seq<char>>, retries: int, s: BtPollView, error: Seq<char>) -> (
    BtPollView,
    BtActionView,
) {
    let s1 = BtPollView { error: Some(error), ..s };
    if s.attempt < retries {
        (s1, BtActionView::Sleep)
    } else {
        bt_end_var(vars, retries, BtPollView { had_errors: true, ..s1 })
    }
}

/// One decision of the Bluetooth status query.
pub open spec fn spec_bt_status_step(vars: Seq<Seq<char>>, retries: int, s: BtPollView, e: BtEventView) -> (
    BtPollView,
    BtActionView,
) {
    match e {
        BtEventView::Start => bt_begin(vars, retries, s, 0),
        BtEventView::Connected => (s, BtActionView::Write(getvar_text(vars[s.var_index]))),
        BtEventView::ConnectFailed(m) => bt_retry(vars, retries, s, "connect failed: "@ + m),
        BtEventView::SetupFailed(read, m) => bt_end_var(
            vars,
            retries,
            BtPollView {
                error: Some(
                    (if read {
                        "read timeout setup failed: "@
                    } else {
                        "write timeout setup failed: "@
                    }) + m,
                ),
                had_errors: true,
                ..s
            },
        ),
        BtEventView::Written => (s, BtActionView::Read),
        BtEventView::WriteFailed(flush, m) => bt_retry(
            vars,
            retries,
            s,
            (if flush {
                "flush failed: "@
            } else {
                "write failed: "@
            }) + m,
        ),
        BtEventView::ReadDone(reply, timed_out, err) => {
            let s1 = BtPollView { timeout_hit: s.timeout_hit || timed_out, ..s };
            match err {
                Some(m) => bt_retry(vars, retries, s1, "read failed: "@ + m),
                None => bt_end_var(vars, retries, BtPollView { value: last_value_line(trim(reply)), ..s1 }),
            }
        },
        BtEventView::Slept => (BtPollView { attempt: s.attempt + 1, error: None, ..s }, BtActionView::Connect),
    }
}

/// The settings of a plan as plain values.
pub open spec fn bt_vars_view(plan: BtPlan) -> Seq<Seq<char>> {
    plan.vars@.map_values(|v: String| v@)
}

/// When a step can be taken: any state starts a query; other events come
/// while a setting is being read, within its attempts, and the pause only
/// follows an attempt that has another after it.
pub open spec fn bt_step_ok(plan: BtPlan, s: BtPoll, e: BtEvent) -> bool {
    ||| e is Start
    ||| {
        &&& s.var_index < plan.vars@.len()
        &&& s.attempt <= plan.retries
        &&& e is Slept ==> s.attempt < plan.retries
    }
}

/// The view of a state with one more outcome recorded.
proof fn lemma_bt_results_push(s: BtPoll, r: BtVarResult, s2: BtPoll)
    requires
        s2.results@ == s.results@.push(r),
    ensures
        bt_poll_view(s2).results == bt_poll_view(s).results.push(
            BtVarView { name: r.name@, value: opt_chars(r.value), error: opt_chars(r.error), timeout: r.timeout },
        ),
{
    assert(bt_poll_view(s2).results =~= bt_poll_view(s).results.push(
        BtVarView { name: r.name@, value: opt_chars(r.value), error: opt_chars(r.error), timeout: r.timeout },
    ));
}

/// Begins setting `i` (see [`bt_begin`]).
fn bt_begin_at(plan: &BtPlan, s: BtPoll, i: usize) -> (r: (BtPoll, BtAction))
    requires
        i <= plan.vars@.len(),
    ensures
        bt_step_view(r.0, r.1) == bt_begin(bt_vars_view(*plan), plan.retries as int, bt_poll_view(s), i as int),
{
    let mut s = s;
    let mut i = i;
    let ghost vars = bt_vars_view(*plan);
    let ghost target = bt_begin(vars, plan.retries as int, bt_poll_view(s), i as int);
    while i < plan.vars.len() && plan.retries == 0
        invariant
            i <= plan.vars@.len(),
            vars == bt_vars_view(*plan),
            target == bt_begin(vars, plan.retries as int, bt_poll_view(s), i as int),
        decreases plan.vars@.len() - i,
    {
        let r = BtVarResult {
            name: plan.vars[i].clone(),
            value: None,
            error: Some(crate::text::owned("no response")),
            timeout: false,
        };
        let ghost s0 = s;
        let ghost rg = r;
        s.had_errors = true;
        s.results.push(r);
        proof {
            lemma_bt_results_push(s0, rg, s);
            assert(bt_poll_view(s) == (BtPollView {
                had_errors: true,
                results: bt_poll_view(s0).results.push(
                    BtVarView { name: vars[i as int], value: None, error: Some("no response"@), timeout: false },
                ),
                ..bt_poll_view(s0)
            }));
        }
        i = i + 1;
    }
    if i >= plan.vars.len() {
        s.var_index = i;
        let ok = !s.had_errors;
        proof {
            assert(bt_poll_view(s).results == target.0.results);
        }
        (s, BtAction::Finish(ok))
    } else {
        s.var_index = i;
        s.attempt = 1;
        s.value = None;
        s.error = None;
        s.timeout_hit = false;
        (s, BtAction::Connect)
    }
}

/// Ends the current setting (see [`bt_end_var`]).
fn bt_end_current(plan: &BtPlan, s: BtPoll) -> (r: (BtPoll, BtAction))
    requires
        s.var_index < plan.vars@.len(),
    ensures
        bt_step_view(r.0, r.1) == bt_end_var(bt_vars_view(*plan), plan.retries as int, bt_poll_view(s)),
{
    let mut s = s;
    let vi = s.var_index;
    let count = plan.vars.len();
    assert(vi < count);
    let no_reply = s.value.is_none() && s.error.is_none();
    if no_reply {
        s.error = Some(crate::text::owned("no response"));
        s.had_errors = true;
    }
    let value = match &s.value {
        Some(v) => Some(v.clone()),
        None => None,
    };
    let error = match &s.error {
        Some(v) => Some(v.clone()),
        None => None,
    };
    let r = BtVarResult { name: plan.vars[vi].clone(), value, error, timeout: s.timeout_hit };
    let ghost s0 = s;
    let ghost rg = r;
    s.results.push(r);
    proof {
        lemma_bt_results_push(s0, rg, s);
    }
    assert(s.var_index == vi);
    bt_begin_at(plan, s, vi + 1)
}

/// A failed attempt (see [`bt_retry`]).
fn bt_fail_attempt(plan: &BtPlan, s: BtPoll, error: String) -> (r: (BtPoll, BtAction))
    requires
        s.var_index < plan.vars@.len(),
    ensures
        bt_step_view(r.0, r.1) == bt_retry(bt_vars_view(*plan), plan.retries as int, bt_poll_view(s), error@),
{
    let mut s = s;
    s.error = Some(error);
    if s.attempt < plan.retries {
        (s, BtAction::Sleep)
    } else {
        s.had_errors = true;
        bt_end_current(plan, s)
    }
}

/// One decision of the Bluetooth status query: from the state and what
/// the transport reported, the next state and what to do next (see
/// [`spec_bt_status_step`]).
pub fn bt_status_step(plan: &BtPlan, s: BtPoll, e: BtEvent) -> (r: (BtPoll, BtAction))
    requires
        bt_step_ok(*plan, s, e),
    ensures
        bt_step_view(r.0, r.1) == spec_bt_status_step(
            bt_vars_view(*plan),
            plan.retries as int,
            bt_poll_view(s),
            bt_event_view(e),
        ),
{
    let mut s = s;
    match e {
        BtEvent::Start => bt_begin_at(plan, s, 0),
        BtEvent::Connected => {
            let w = getvar_command(plan.vars[s.var_index].as_str());
            (s, BtAction::Write(w))
        },
        BtEvent::ConnectFailed(m) => {
            let mut msg = crate::text::owned("connect failed: ");
            crate::text::append_str(&mut msg, m.as_str());
            bt_fail_attempt(plan, s, msg)
        },
        BtEvent::SetupFailed { read, message } => {
            let mut msg = if read {
                crate::text::owned("read timeout setup failed: ")
            } else {
                crate::text::owned("write timeout setup failed: ")
            };
            crate::text::append_str(&mut msg, message.as_str());
            s.error = Some(msg);
            s.had_errors = true;
            bt_end_current(plan, s)
        },
        BtEvent::Written => (s, BtAction::Read),
        BtEvent::WriteFailed { flush, message } => {
            let mut msg = if flush {
                crate::text::owned("flush failed: ")
            } else {
                crate::text::owned("write failed: ")
            };
            crate::text::append_str(&mut msg, message.as_str());
            bt_fail_attempt(plan, s, msg)
        },
        BtEvent::ReadDone { reply, timed_out, error } => {
            s.timeout_hit = s.timeout_hit || timed_out;
            match error {
                Some(m) => {
                    let mut msg = crate::text::owned("read failed: ");
                    crate::text::append_str(&mut msg, m.as_str());
                    bt_fail_attempt(plan, s, msg)
                },
                None => {
                    s.value = getvar_value(reply.as_str());
                    bt_end_current(plan, s)
                },
            }
        },
        BtEvent::Slept => {
            s.attempt = s.attempt + 1;
            s.error = None;
            (s, BtAction::Connect)
        },
    }
}

/// The state before a query starts.
pub fn bt_poll_new() -> (r: BtPoll)
    ensures
        bt_poll_view(r) == (BtPollView {
            var_index: 0,
            attempt: 0,
            value: None,
            error: None,
            timeout_hit: false,
            had_errors: false,
            results: seq![],
        }),
{
    let r = BtPoll {
        var_index: 0,
        attempt: 0,
        value: None,
        error: None,
        timeout_hit: false,
        had_errors: false,
        results: Vec::new(),
    };
    assert(bt_poll_view(r).results =~= Seq::<BtVarView>::empty());
    r
}

} // verus!
