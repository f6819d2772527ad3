//! The decisions of printing: which transport an address selects, whether
//! validation findings stop a print, which status flags count as printer
//! faults, and the print session as a state machine (query info, send each
//! file, query status, wait, verify) that the caller drives with the results
//! of the printer operations.

use crate::cli::{looks_like_bluetooth_mac, looks_like_serial_port, parse_usb_vidpid, spec_bluetooth_mac, spec_serial_port, spec_usb_vidpid};
use crate::diag::{any_error, has_error, Diagnostic, Severity};
use crate::text::{append_str, chars_of, chars_skip, chars_start_with, owned, starts_with, str_eq, string_from_chars};
use vstd::prelude::*;

verus! {

broadcast use vstd::seq::group_seq_axioms;

/// The transport a printer address selects.
#[derive(Debug, Clone, Copy, PartialEq, Eq, Structural)]
pub enum Transport {
    /// A serial or Bluetooth SPP port path.
    Serial,
    /// The first Zebra printer found on USB.
    UsbAuto,
    /// The USB printer with this vendor and product id.
    UsbDevice(u16, u16),
    /// A network printer.
    Tcp,
}

/// The message for `--serial` with a USB address.
pub open spec fn serial_usb_message(a: Seq<char>) -> Seq<char> {
    "--serial cannot be used with USB printer address '"@ + a + "'"@
}

/// The message for a Bluetooth MAC given with `--serial`.
pub open spec fn serial_mac_message(a: Seq<char>) -> Seq<char> {
    "'"@ + a
        + "' looks like a Bluetooth MAC address. With --serial, pass the OS serial port path instead (for example: /dev/cu.<name> on macOS, COM5 on Windows, /dev/rfcomm0 on Linux)."@
}

/// The message for a serial port path given without `--serial`.
pub open spec fn serial_port_message(a: Seq<char>) -> Seq<char> {
    "'"@ + a + "' looks like a serial port — add --serial to use serial transport.\n  Example: zpl print <FILE> -p "@
        + a + " --serial"@
}

/// The message for a Bluetooth MAC given without `--serial` (live print).
pub open spec fn mac_message(a: Seq<char>) -> Seq<char> {
    "'"@ + a
        + "' looks like a Bluetooth MAC address. For Bluetooth/serial transport, pass the OS serial port path and add --serial (for example: /dev/cu.<name> on macOS, COM5 on Windows, /dev/rfcomm0 on Linux)."@
}

/// The message for a Bluetooth MAC given without `--serial` (dry run).
pub open spec fn mac_message_dry_run(a: Seq<char>) -> Seq<char> {
    "'"@ + a
        + "' looks like a Bluetooth MAC address. For Bluetooth/serial printers, pass the OS serial port path and add --serial (for example: /dev/cu.<name> on macOS, COM5 on Windows, /dev/rfcomm0 on Linux)."@
}

/// Whether an address names USB: `usb` or `usb:...`.
pub open spec fn is_usb_address(a: Seq<char>) -> bool {
    a == "usb"@ || starts_with(a, "usb:"@)
}

/// The transport for printer address `a`: with `--serial`, a serial port
/// unless the address is USB or a Bluetooth MAC; else `usb` and
/// `usb:VID:PID` select USB (a live print reads the ids; a dry run does
/// not); serial port paths and Bluetooth MACs are refused with a hint; any
/// other address is a network printer.
pub open spec fn spec_choose_transport(a: Seq<char>, serial: bool, dry_run: bool) -> Result<Transport, Seq<char>> {
    if serial && is_usb_address(a) {
        Err(serial_usb_message(a))
    } else if serial {
        if spec_bluetooth_mac(a) {
            Err(serial_mac_message(a))
        } else {
            Ok(Transport::Serial)
        }
    } else if a == "usb"@ {
        Ok(Transport::UsbAuto)
    } else if starts_with(a, "usb:"@) && !dry_run {
        match spec_usb_vidpid(a.skip(4)) {
            Ok((v, p)) => Ok(Transport::UsbDevice(v as u16, p as u16)),
            Err(m) => Err(m),
        }
    } else if starts_with(a, "usb:"@) {
        Ok(Transport::UsbAuto)
    } else if spec_serial_port(a) {
        Err(serial_port_message(a))
    } else if spec_bluetooth_mac(a) {
        Err(if dry_run {
            mac_message_dry_run(a)
        } else {
            mac_message(a)
        })
    } else {
        Ok(Transport::Tcp)
    }
}

fn quote_around(head: &str, a: &str, tail: &str) -> (r: String)
    ensures
        r@ == head@ + a@ + tail@,
{
    let mut m = owned(head);
    append_str(&mut m, a);
    append_str(&mut m, tail);
    m
}

/// Chooses the transport for a printer address (see [`spec_choose_transport`]).
pub fn choose_transport(addr: &str, serial: bool, dry_run: bool) -> (r: Result<Transport, String>)
    ensures
        match r {
            Ok(t) => spec_choose_transport(addr@, serial, dry_run) == Ok::<Transport, Seq<char>>(t),
            Err(m) => spec_choose_transport(addr@, serial, dry_run) == Err::<Transport, Seq<char>>(m@),
        },
{
    let a = chars_of(addr);
    let usb_prefix = chars_of("usb:");
    let is_usb_auto = str_eq(addr, "usb");
    let has_usb_prefix = chars_start_with(&a, &usb_prefix);
    if serial && (is_usb_auto || has_usb_prefix) {
        return Err(quote_around("--serial cannot be used with USB printer address '", addr, "'"));
    }
    if serial {
        if looks_like_bluetooth_mac(addr) {
            return Err(
                quote_around(
                    "'",
                    addr,
                    "' looks like a Bluetooth MAC address. With --serial, pass the OS serial port path instead (for example: /dev/cu.<name> on macOS, COM5 on Windows, /dev/rfcomm0 on Linux).",
                ),
            );
        }
        return Ok(Transport::Serial);
    }
    if is_usb_auto {
        return Ok(Transport::UsbAuto);
    }
    if has_usb_prefix {
        if dry_run {
            return Ok(Transport::UsbAuto);
        }
        let rest = string_from_chars(&chars_skip(&a, usb_prefix.len()));
        proof {
            reveal_strlit("usb:");
        }
        return match parse_usb_vidpid(rest.as_str()) {
            Ok((v, p)) => Ok(Transport::UsbDevice(v, p)),
            Err(m) => Err(m),
        };
    }
    if looks_like_serial_port(addr) {
        let mut m = quote_around(
            "'",
            addr,
            "' looks like a serial port — add --serial to use serial transport.\n  Example: zpl print <FILE> -p ",
        );
        append_str(&mut m, addr);
        append_str(&mut m, " --serial");
        return Err(m);
    }
    if looks_like_bluetooth_mac(addr) {
        return Err(
            if dry_run {
                quote_around(
                    "'",
                    addr,
                    "' looks like a Bluetooth MAC address. For Bluetooth/serial printers, pass the OS serial port path and add --serial (for example: /dev/cu.<name> on macOS, COM5 on Windows, /dev/rfcomm0 on Linux).",
                )
            } else {
                quote_around(
                    "'",
                    addr,
                    "' looks like a Bluetooth MAC address. For Bluetooth/serial transport, pass the OS serial port path and add --serial (for example: /dev/cu.<name> on macOS, COM5 on Windows, /dev/rfcomm0 on Linux).",
                )
            },
        );
    }
    Ok(Transport::Tcp)
}

/// What validation findings mean for a print.
#[derive(Debug, Clone, Copy, PartialEq, Eq, Structural)]
pub enum PrintGate {
    /// Print.
    Proceed,
    /// Stop: there are errors.
    AbortOnErrors,
    /// Stop: there are warnings and warnings count as errors.
    AbortOnWarnings,
}

/// Whether any diagnostic in the list is a warning.
pub open spec fn has_warning(ds: Seq<Diagnostic>) -> bool {
    exists|k: int| 0 <= k < ds.len() && (#[trigger] ds[k]).severity == Severity::Warn
}

fn any_warning(ds: &Vec<Diagnostic>) -> (r: bool)
    ensures
        r == has_warning(ds@),
{
    let mut i: usize = 0;
    while i < ds.len()
        invariant
            i <= ds.len(),
            forall|k: int| 0 <= k < i ==> (#[trigger] ds@[k]).severity != Severity::Warn,
        decreases ds.len() - i,
    {
        if ds[i].severity == Severity::Warn {
            return true;
        }
        i = i + 1;
    }
    false
}

/// Whether a print goes ahead after validation: errors stop it; with
/// `strict`, warnings stop it too.
pub fn validation_gate(diagnostics: &Vec<Diagnostic>, strict: bool) -> (r: PrintGate)
    ensures
        r == (if has_error(diagnostics@) {
            PrintGate::AbortOnErrors
        } else if strict && has_warning(diagnostics@) {
            PrintGate::AbortOnWarnings
        } else {
            PrintGate::Proceed
        }),
{
    if any_error(diagnostics) {
        PrintGate::AbortOnErrors
    } else if strict && any_warning(diagnostics) {
        PrintGate::AbortOnWarnings
    } else {
        PrintGate::Proceed
    }
}

/// The alert flags of a printer's host status.
#[derive(Debug, Clone, Copy, PartialEq, Eq, Structural)]
pub struct HostFlags {
    pub paper_out: bool,
    pub ribbon_out: bool,
    pub head_up: bool,
    pub paused: bool,
    pub over_temperature: bool,
    pub under_temperature: bool,
    pub corrupt_ram: bool,
    pub buffer_full: bool,
}

/// A fault's name when its flag is set.
pub open spec fn fault_if(on: bool, name: Seq<char>) -> Seq<Seq<char>> {
    if on {
        seq![name]
    } else {
        seq![]
    }
}

/// The hard faults a status reports, in a fixed order: paper out, ribbon
/// out, head up, over and under temperature, corrupt RAM, full buffer,
/// paused.
pub open spec fn spec_hard_faults(f: HostFlags) -> Seq<Seq<char>> {
    fault_if(f.paper_out, "paper_out"@) + fault_if(f.ribbon_out, "ribbon_out"@) + fault_if(f.head_up, "head_up"@)
        + fault_if(f.over_temperature, "over_temp"@) + fault_if(f.under_temperature, "under_temp"@) + fault_if(
        f.corrupt_ram,
        "corrupt_ram"@,
    ) + fault_if(f.buffer_full, "buffer_full"@) + fault_if(f.paused, "paused"@)
}

/// The character sequences held by a vector of strings.
pub open spec fn strings_view(v: Seq<String>) -> Seq<Seq<char>> {
    v.map_values(|s: String| s@)
}

fn push_fault(v: &mut Vec<String>, on: bool, name: &str)
    ensures
        strings_view(final(v)@) == strings_view(old(v)@) + fault_if(on, name@),
{
    if on {
        let ghost before = strings_view(v@);
        v.push(owned(name));
        assert(strings_view(v@) =~= before + seq![name@]);
    } else {
        assert(strings_view(v@) =~= strings_view(v@) + seq![]);
    }
}

/// The hard faults a status reports (see [`spec_hard_faults`]).
pub fn hard_faults(f: &HostFlags) -> (r: Vec<String>)
    ensures
        strings_view(r@) == spec_hard_faults(*f),
{
    let mut v: Vec<String> = Vec::new();
    assert(strings_view(v@) =~= Seq::<Seq<char>>::empty());
    push_fault(&mut v, f.paper_out, "paper_out");
    push_fault(&mut v, f.ribbon_out, "ribbon_out");
    push_fault(&mut v, f.head_up, "head_up");
    push_fault(&mut v, f.over_temperature, "over_temp");
    push_fault(&mut v, f.under_temperature, "under_temp");
    push_fault(&mut v, f.corrupt_ram, "corrupt_ram");
    push_fault(&mut v, f.buffer_full, "buffer_full");
    push_fault(&mut v, f.paused, "paused");
    assert(strings_view(v@) =~= spec_hard_faults(*f));
    v
}

/// What a print session was asked to do.
#[derive(Debug, Clone, Copy)]
pub struct SessionPlan {
    /// Query printer information before sending.
    pub info: bool,
    /// Query the status after sending.
    pub status: bool,
    /// Require a clean status after sending.
    pub verify: bool,
    /// Wait for the printer to finish.
    pub wait: bool,
    /// The number of files to send.
    pub file_count: usize,
}

/// Where a print session stands.
#[derive(Debug, Clone, Copy, PartialEq, Eq, Structural)]
pub enum Stage {
    /// Nothing done yet.
    Start,
    /// Printer information was requested.
    Info,
    /// File `i` is being sent.
    Sending(usize),
    /// The status after sending was requested.
    Status,
    /// Waiting for the printer to finish.
    Waiting,
    /// The status for verification was requested.
    Verifying,
    /// The session is over.
    Over,
}

/// The state of a print session.
#[derive(Debug, Clone, Copy)]
pub struct SessionState {
    /// The current stage.
    pub stage: Stage,
    /// The last status read and still valid for verification.
    pub last_status: Option<HostFlags>,
}

/// The result of the operation the session last asked for.
#[derive(Debug, Clone, Copy)]
pub enum SessionEvent {
    /// The session begins.
    Begin,
    /// Printer information arrived or could not be read (either way the
    /// session goes on).
    InfoDone,
    /// The file being sent went through (`true`) or failed.
    Sent(bool),
    /// A status read gave these flags, or failed.
    StatusRead(Option<HostFlags>),
    /// Waiting for completion finished (`true`) or failed.
    WaitDone(bool),
}

/// Why a print session failed.
#[derive(Debug, Clone, PartialEq)]
pub enum SessionFailure {
    /// File `i` could not be sent.
    SendFailed(usize),
    /// Verification needed a status that could not be read.
    StatusUnavailable,
    /// Waiting for completion failed.
    WaitFailed,
    /// Verification found these hard faults.
    Faults(Vec<String>),
}

/// What the caller does next.
#[derive(Debug, Clone, PartialEq)]
pub enum SessionAction {
    /// Query printer information.
    QueryInfo,
    /// Send file `i`.
    SendFile(usize),
    /// Query the printer status.
    QueryStatus,
    /// Wait for the printer to finish.
    WaitForCompletion,
    /// Report success.
    Finish,
    /// Report the failure.
    Fail(SessionFailure),
}

/// The action of a session failure as plain values.
pub open spec fn failure_view(f: SessionFailure) -> (int, Seq<Seq<char>>) {
    match f {
        SessionFailure::SendFailed(i) => (i as int, seq![]),
        SessionFailure::StatusUnavailable => (-1, seq![]),
        SessionFailure::WaitFailed => (-2, seq![]),
        SessionFailure::Faults(v) => (-3, strings_view(v@)),
    }
}

/// A session step as plain values: the next stage and status, and the
/// action (`0` query info, `1` send, `2` query status, `3` wait, `4` finish,
/// `5` fail) with its file index or failure.
pub type StepView = (Stage, Option<HostFlags>, int, int, Option<(int, Seq<Seq<char>>)>);

/// The view of a step.
pub open spec fn step_view(s: SessionState, a: SessionAction) -> StepView {
    match a {
        SessionAction::QueryInfo => (s.stage, s.last_status, 0, 0, None),
        SessionAction::SendFile(i) => (s.stage, s.last_status, 1, i as int, None),
        SessionAction::QueryStatus => (s.stage, s.last_status, 2, 0, None),
        SessionAction::WaitForCompletion => (s.stage, s.last_status, 3, 0, None),
        SessionAction::Finish => (s.stage, s.last_status, 4, 0, None),
        SessionAction::Fail(f) => (s.stage, s.last_status, 5, 0, Some(failure_view(f))),
    }
}

/// After the post-send status: wait when asked, else verify.
pub open spec fn after_status(p: SessionPlan, last: Option<HostFlags>) -> StepView {
    if p.wait {
        (Stage::Waiting, last, 3, 0, None)
    } else {
        verify_step(p, last)
    }
}

/// The verification step: when asked, check the last status (reading one
/// if there is none); else finish.
pub open spec fn verify_step(p: SessionPlan, last: Option<HostFlags>) -> StepView {
    if !p.verify {
        (Stage::Over, last, 4, 0, None)
    } else {
        match last {
            Some(f) => check_faults(f),
            None => (Stage::Verifying, last, 2, 0, None),
        }
    }
}

/// Finish when the status shows no hard fault, else fail with the faults.
pub open spec fn check_faults(f: HostFlags) -> StepView {
    if spec_hard_faults(f).len() == 0 {
        (Stage::Over, Some(f), 4, 0, None)
    } else {
        (Stage::Over, Some(f), 5, 0, Some((-3, spec_hard_faults(f))))
    }
}

/// After the last file: read the status when asked to report or verify it;
/// else go on as after the status.
pub open spec fn after_sending(p: SessionPlan, last: Option<HostFlags>) -> StepView {
    if p.status || p.verify {
        (Stage::Status, last, 2, 0, None)
    } else {
        after_status(p, last)
    }
}

/// Send file `i` if there is one, else go on after sending.
pub open spec fn send_from(p: SessionPlan, i: int, last: Option<HostFlags>) -> StepView {
    if i < p.file_count {
        (Stage::Sending(i as usize), last, 1, i, None)
    } else {
        after_sending(p, last)
    }
}

/// One step of a print session: given the state and the result of the last
/// operation, the next state and what to do. Information is read first when
/// asked; the files are sent in order and a failed send ends the session; a
/// status is read when asked to report or verify it, and a failed read ends
/// the session only when verifying; waiting comes next when asked, and a
/// completed wait makes the status stale for verification; verification
/// fails on a status that cannot be read or that shows a hard fault.
pub open spec fn spec_session_next(p: SessionPlan, s: SessionState, e: SessionEvent) -> StepView {
    let last = s.last_status;
    match (s.stage, e) {
        (Stage::Start, SessionEvent::Begin) => if p.info {
            (Stage::Info, last, 0, 0, None)
        } else {
            send_from(p, 0, last)
        },
        (Stage::Info, SessionEvent::InfoDone) => send_from(p, 0, last),
        (Stage::Sending(i), SessionEvent::Sent(ok)) => if ok {
            send_from(p, i + 1, last)
        } else {
            (Stage::Over, last, 5, 0, Some((i as int, seq![])))
        },
        (Stage::Status, SessionEvent::StatusRead(r)) => match r {
            Some(f) => after_status(p, Some(f)),
            None => if p.verify {
                (Stage::Over, last, 5, 0, Some((-1, seq![])))
            } else {
                after_status(p, last)
            },
        },
        (Stage::Waiting, SessionEvent::WaitDone(ok)) => if ok {
            verify_step(
                p,
                if p.verify {
                    None
                } else {
                    last
                },
            )
        } else {
            (Stage::Over, last, 5, 0, Some((-2, seq![])))
        },
        (Stage::Verifying, SessionEvent::StatusRead(r)) => match r {
            Some(f) => check_faults(f),
            None => (Stage::Over, last, 5, 0, Some((-1, seq![]))),
        },
        _ => (s.stage, last, 5, 0, Some((-1, seq![]))),
    }
}

fn fault_step(f: HostFlags) -> (r: (SessionState, SessionAction))
    ensures
        step_view(r.0, r.1) == check_faults(f),
{
    let faults = hard_faults(&f);
    if faults.len() == 0 {
        (SessionState { stage: Stage::Over, last_status: Some(f) }, SessionAction::Finish)
    } else {
        (
            SessionState { stage: Stage::Over, last_status: Some(f) },
            SessionAction::Fail(SessionFailure::Faults(faults)),
        )
    }
}

fn verify_exec(p: &SessionPlan, last: Option<HostFlags>) -> (r: (SessionState, SessionAction))
    ensures
        step_view(r.0, r.1) == verify_step(*p, last),
{
    if !p.verify {
        return (SessionState { stage: Stage::Over, last_status: last }, SessionAction::Finish);
    }
    match last {
        Some(f) => fault_step(f),
        None => (SessionState { stage: Stage::Verifying, last_status: last }, SessionAction::QueryStatus),
    }
}

fn after_status_exec(p: &SessionPlan, last: Option<HostFlags>) -> (r: (SessionState, SessionAction))
    ensures
        step_view(r.0, r.1) == after_status(*p, last),
{
    if p.wait {
        (SessionState { stage: Stage::Waiting, last_status: last }, SessionAction::WaitForCompletion)
    } else {
        verify_exec(p, last)
    }
}

fn send_from_exec(p: &SessionPlan, i: usize, last: Option<HostFlags>) -> (r: (SessionState, SessionAction))
    ensures
        step_view(r.0, r.1) == send_from(*p, i as int, last),
{
    if i < p.file_count {
        (SessionState { stage: Stage::Sending(i), last_status: last }, SessionAction::SendFile(i))
    } else if p.status || p.verify {
        (SessionState { stage: Stage::Status, last_status: last }, SessionAction::QueryStatus)
    } else {
        after_status_exec(p, last)
    }
}

/// One step of a print session (see [`spec_session_next`]).
pub fn session_next(p: &SessionPlan, s: &SessionState, e: &SessionEvent) -> (r: (SessionState, SessionAction))
    ensures
        step_view(r.0, r.1) == spec_session_next(*p, *s, *e),
{
    let last = s.last_status;
    let unexpected = (SessionState { stage: s.stage, last_status: last }, SessionAction::Fail(SessionFailure::StatusUnavailable));
    match s.stage {
        Stage::Start => match e {
            SessionEvent::Begin => if p.info {
                (SessionState { stage: Stage::Info, last_status: last }, SessionAction::QueryInfo)
            } else {
                send_from_exec(p, 0, last)
            },
            _ => unexpected,
        },
        Stage::Info => match e {
            SessionEvent::InfoDone => send_from_exec(p, 0, last),
            _ => unexpected,
        },
        Stage::Sending(i) => match e {
            SessionEvent::Sent(ok) => if *ok {
                if i < p.file_count {
                    send_from_exec(p, i + 1, last)
                } else {
                    proof {
                        assert(!(i + 1 < p.file_count));
                    }
                    if p.status || p.verify {
                        (SessionState { stage: Stage::Status, last_status: last }, SessionAction::QueryStatus)
                    } else {
                        after_status_exec(p, last)
                    }
                }
            } else {
                (SessionState { stage: Stage::Over, last_status: last }, SessionAction::Fail(SessionFailure::SendFailed(i)))
            },
            _ => unexpected,
        },
        Stage::Status => match e {
            SessionEvent::StatusRead(r) => match r {
                Some(f) => after_status_exec(p, Some(*f)),
                None => if p.verify {
                    (SessionState { stage: Stage::Over, last_status: last }, SessionAction::Fail(SessionFailure::StatusUnavailable))
                } else {
                    after_status_exec(p, last)
                },
            },
            _ => unexpected,
        },
        Stage::Waiting => match e {
            SessionEvent::WaitDone(ok) => if *ok {
                verify_exec(
                    p,
                    if p.verify {
                        None
                    } else {
                        last
                    },
                )
            } else {
                (SessionState { stage: Stage::Over, last_status: last }, SessionAction::Fail(SessionFailure::WaitFailed))
            },
            _ => unexpected,
        },
        Stage::Verifying => match e {
            SessionEvent::StatusRead(r) => match r {
                Some(f) => fault_step(*f),
                None => (SessionState { stage: Stage::Over, last_status: last }, SessionAction::Fail(SessionFailure::StatusUnavailable)),
            },
            _ => unexpected,
        },
        Stage::Over => unexpected,
    }
}

/// Verification never lets a print succeed when the status it checks shows
/// a hard fault.
pub proof fn law_verify_fails_on_faults(p: SessionPlan, s: SessionState, f: HostFlags)
    requires
        s.stage == Stage::Verifying,
        spec_hard_faults(f).len() > 0,
    ensures
        spec_session_next(p, s, SessionEvent::StatusRead(Some(f))).2 == 5,
{
}

/// A failed send ends the session with a failure naming that file.
pub proof fn law_send_failure_stops(p: SessionPlan, i: usize, last: Option<HostFlags>)
    ensures
        ({
            let st = spec_session_next(p, SessionState { stage: Stage::Sending(i), last_status: last }, SessionEvent::Sent(false));
            st.0 == Stage::Over && st.2 == 5 && st.4 == Some((i as int, Seq::<Seq<char>>::empty()))
        }),
{
    assert(seq![] =~= Seq::<Seq<char>>::empty());
}

/// Files are sent one after another: after file `i` goes through, the next
/// file is sent if there is one.
pub proof fn law_files_sent_in_order(p: SessionPlan, i: usize, last: Option<HostFlags>)
    requires
        i + 1 < p.file_count,
    ensures
        ({
            let st = spec_session_next(p, SessionState { stage: Stage::Sending(i), last_status: last }, SessionEvent::Sent(true));
            st.2 == 1 && st.3 == i + 1
        }),
{
}

/// A status that cannot be read stops the session only when verifying.
pub proof fn law_status_failure_stops_only_when_verifying(p: SessionPlan, s: SessionState)
    requires
        s.stage == Stage::Status,
    ensures
        (spec_session_next(p, s, SessionEvent::StatusRead(None)).2 == 5) == p.verify,
{
}

} // verus!
