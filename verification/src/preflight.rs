//! Checks made once a label has been read: graphic data against the
//! printer's RAM, and dimensions the label leaves to the profile.

use crate::constraints::opt_profile;
use crate::context::ValidationContext;
use crate::diag::{
    diag1, diag3, diags_view, push_diagnostic, spec_severity, DiagView, Diagnostic, Span, GF_MEMORY_EXCEEDED,
    MISSING_EXPLICIT_DIMENSIONS,
};
use crate::label_state::{LabelState, LabelView};
use crate::profile::Profile;
use crate::text::{append_str, decimal, owned, u64_to_decimal};
use vstd::prelude::*;

verus! {

/// The profile's RAM in kilobytes, when it states one.
pub open spec fn ram_kb(p: Profile) -> Option<u32> {
    match p.memory {
        Some(m) => m.ram_kb,
        None => None,
    }
}

/// Whether the profile states a page width.
pub open spec fn has_width(p: Profile) -> bool {
    p.page matches Some(pg) && pg.width_dots is Some
}

/// Whether the profile states a page height.
pub open spec fn has_height(p: Profile) -> bool {
    p.page matches Some(pg) && pg.height_dots is Some
}

/// The commands a label lacks for the dimensions the profile provides,
/// joined with `", "`.
pub open spec fn missing_commands(v: LabelView, p: Profile) -> Seq<char> {
    let pw = !v.has_explicit_pw && has_width(p);
    let ll = !v.has_explicit_ll && has_height(p);
    if pw && ll {
        "^PW, ^LL"@
    } else if pw {
        "^PW"@
    } else if ll {
        "^LL"@
    } else {
        seq![]
    }
}

/// The preflight findings: graphic data that exceeds the profile's RAM
/// (when that check runs), then explicit dimensions the label lacks while
/// the profile provides them (when that check runs).
pub open spec fn spec_preflight(
    reg: crate::diag::SeverityRegistry,
    profile: Option<Profile>,
    v: LabelView,
    run_gf_memory_check: bool,
    run_missing_dimensions_check: bool,
    label_span: Option<Span>,
) -> Seq<DiagView> {
    (if run_gf_memory_check && v.gf_total_bytes > 0 && profile is Some && ram_kb(profile->0) is Some
        && v.gf_total_bytes > ram_kb(profile->0)->0 * 1024 {
        let kb = ram_kb(profile->0)->0 as nat;
        seq![
            (
                GF_MEMORY_EXCEEDED@,
                spec_severity(reg, GF_MEMORY_EXCEEDED@),
                "Total graphic data ("@ + decimal(v.gf_total_bytes as nat) + " bytes) exceeds available RAM ("@
                    + decimal(kb * 1024) + " bytes / "@ + decimal(kb) + " KB)"@,
                label_span,
                Some(
                    seq![
                        ("command"@, "^GF"@),
                        ("ram_bytes"@, decimal(kb * 1024)),
                        ("total_bytes"@, decimal(v.gf_total_bytes as nat)),
                    ],
                ),
            ),
        ]
    } else {
        seq![]
    }) + (if run_missing_dimensions_check && profile is Some && missing_commands(v, profile->0).len() > 0 {
        let m = missing_commands(v, profile->0);
        seq![
            (
                MISSING_EXPLICIT_DIMENSIONS@,
                spec_severity(reg, MISSING_EXPLICIT_DIMENSIONS@),
                "Label relies on profile for dimensions but does not contain explicit "@ + m
                    + " \u{2014} consider adding for portability"@,
                label_span,
                Some(seq![("missing_commands"@, m)]),
            ),
        ]
    } else {
        seq![]
    })
}

/// Preflight checks after all nodes of a label are processed: total graphic
/// data against the profile's RAM, and `^PW`/`^LL` missing while the
/// profile provides the dimensions.
pub fn validate_preflight(
    vctx: &ValidationContext,
    label_state: &LabelState,
    run_gf_memory_check: bool,
    run_missing_dimensions_check: bool,
    label_span: Option<Span>,
    issues: &mut Vec<Diagnostic>,
)
    ensures
        diags_view(final(issues)@) == diags_view(old(issues)@) + spec_preflight(
            *vctx.severities,
            opt_profile(vctx.profile),
            label_state@,
            run_gf_memory_check,
            run_missing_dimensions_check,
            label_span,
        ),
{
    let ghost d0 = diags_view(issues@);
    let reg = vctx.severities;
    if run_gf_memory_check && label_state.gf_total_bytes > 0 {
        match vctx.profile {
            Some(profile) => {
                let kb = match &profile.memory {
                    Some(m) => m.ram_kb,
                    None => None,
                };
                match kb {
                    Some(ram_kb) => {
                        let ram_bytes: u64 = ram_kb as u64 * 1024;
                        if label_state.gf_total_bytes as u64 > ram_bytes {
                            let total = label_state.gf_total_bytes as u64;
                            let mut msg = owned("Total graphic data (");
                            append_str(&mut msg, u64_to_decimal(total).as_str());
                            append_str(&mut msg, " bytes) exceeds available RAM (");
                            append_str(&mut msg, u64_to_decimal(ram_bytes).as_str());
                            append_str(&mut msg, " bytes / ");
                            append_str(&mut msg, u64_to_decimal(ram_kb as u64).as_str());
                            append_str(&mut msg, " KB)");
                            let d = diag3(
                                GF_MEMORY_EXCEEDED,
                                reg.severity_of(GF_MEMORY_EXCEEDED),
                                msg,
                                label_span,
                                "command",
                                owned("^GF"),
                                "ram_bytes",
                                u64_to_decimal(ram_bytes),
                                "total_bytes",
                                u64_to_decimal(total),
                            );
                            push_diagnostic(issues, d);
                        }
                    },
                    None => {},
                }
            },
            None => {},
        }
    }
    let ghost d1 = diags_view(issues@);
    if run_missing_dimensions_check {
        match vctx.profile {
            Some(profile) => {
                let (profile_has_width, profile_has_height) = match &profile.page {
                    Some(pg) => (pg.width_dots.is_some(), pg.height_dots.is_some()),
                    None => (false, false),
                };
                if (profile_has_width || profile_has_height) && (!label_state.has_explicit_pw
                    || !label_state.has_explicit_ll) {
                    let pw = !label_state.has_explicit_pw && profile_has_width;
                    let ll = !label_state.has_explicit_ll && profile_has_height;
                    if pw || ll {
                        let missing = if pw && ll {
                            owned("^PW, ^LL")
                        } else if pw {
                            owned("^PW")
                        } else {
                            owned("^LL")
                        };
                        let mut msg = owned("Label relies on profile for dimensions but does not contain explicit ");
                        append_str(&mut msg, missing.as_str());
                        append_str(&mut msg, " \u{2014} consider adding for portability");
                        let d = diag1(
                            MISSING_EXPLICIT_DIMENSIONS,
                            reg.severity_of(MISSING_EXPLICIT_DIMENSIONS),
                            msg,
                            label_span,
                            "missing_commands",
                            missing,
                        );
                        push_diagnostic(issues, d);
                    }
                }
            },
            None => {},
        }
    }
    proof {
        reveal_strlit("^PW, ^LL");
        reveal_strlit("^PW");
        reveal_strlit("^LL");
        assert(diags_view(issues@) =~= d0 + spec_preflight(
            *vctx.severities,
            opt_profile(vctx.profile),
            label_state@,
            run_gf_memory_check,
            run_missing_dimensions_check,
            label_span,
        ));
    }
}

} // verus!
