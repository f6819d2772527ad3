//! Printer profiles: the printer facts that validation consults (identity,
//! resolution, page size, memory, firmware and capability gates).

use crate::text::{chars_eq, chars_of};
use vstd::prelude::*;

verus! {

/// Page dimensions in dots, when known.
#[derive(Debug, Clone)]
pub struct Page {
    /// Printable width in dots.
    pub width_dots: Option<u32>,
    /// Label height in dots.
    pub height_dots: Option<u32>,
}

/// Printer memory and firmware facts.
#[derive(Debug, Clone)]
pub struct Memory {
    /// RAM in kilobytes.
    pub ram_kb: Option<u32>,
    /// Flash storage in kilobytes.
    pub flash_kb: Option<u32>,
    /// Installed firmware version (e.g. `V60.19.15Z`).
    pub firmware_version: Option<String>,
}

/// A printer profile.
#[derive(Debug, Clone)]
pub struct Profile {
    /// Profile identifier (often encodes the model).
    pub id: String,
    /// Print resolution in dots per inch.
    pub dpi: u32,
    /// Page dimensions.
    pub page: Option<Page>,
    /// Capability gates the profile declares, each with whether the printer
    /// has the capability (`cutter`, `rfid`, ...).
    pub features: Option<Vec<(String, bool)>>,
    /// Memory and firmware.
    pub memory: Option<Memory>,
    /// Media handling.
    pub media: Option<Media>,
}

/// How the printer prints.
#[derive(Debug, Clone, Copy, PartialEq, Eq, Structural)]
pub enum PrintMethod {
    /// Direct thermal only.
    DirectThermal,
    /// Thermal transfer only.
    ThermalTransfer,
    /// Either.
    Both,
}

/// The media handling a printer supports.
#[derive(Debug, Clone)]
pub struct Media {
    /// The print method.
    pub print_method: Option<PrintMethod>,
    /// Print modes accepted by `^MM`.
    pub supported_modes: Option<Vec<String>>,
    /// Media tracking modes accepted by `^MN`.
    pub supported_tracking: Option<Vec<String>>,
}

/// What the profile says of capability `gate`: the value of the first
/// declared gate of that name, or nothing when the profile does not declare it.
pub open spec fn spec_resolve_gate(fs: Seq<(String, bool)>, gate: Seq<char>) -> Option<bool>
    decreases fs.len(),
{
    if fs.len() == 0 {
        None
    } else if fs[0].0@ == gate {
        Some(fs[0].1)
    } else {
        spec_resolve_gate(fs.drop_first(), gate)
    }
}

/// Looks up capability `gate` among the declared features (see
/// [`spec_resolve_gate`]).
pub fn resolve_gate(features: &Vec<(String, bool)>, gate: &Vec<char>) -> (r: Option<bool>)
    ensures
        r == spec_resolve_gate(features@, gate@),
{
    let mut i: usize = 0;
    assert(features@.skip(0) =~= features@);
    while i < features.len()
        invariant
            i <= features.len(),
            spec_resolve_gate(features@, gate@) == spec_resolve_gate(features@.skip(i as int), gate@),
        decreases features.len() - i,
    {
        assert(features@.skip(i as int).drop_first() =~= features@.skip(i + 1));
        let name = chars_of(features[i].0.as_str());
        if chars_eq(&name, gate) {
            return Some(features[i].1);
        }
        i = i + 1;
    }
    None
}

/// The profile's firmware version, if its memory section names one.
pub open spec fn spec_firmware(p: Profile) -> Option<Seq<char>> {
    match p.memory {
        Some(m) => match m.firmware_version {
            Some(v) => Some(v@),
            None => None,
        },
        None => None,
    }
}

/// Whether the profile gives a page width or a page height.
pub open spec fn spec_has_page_dimension(p: Profile) -> bool {
    match p.page {
        Some(pg) => pg.width_dots is Some || pg.height_dots is Some,
        None => false,
    }
}

/// Whether the profile gives a page width or a page height.
pub fn has_page_dimension(p: &Profile) -> (r: bool)
    ensures
        r == spec_has_page_dimension(*p),
{
    match &p.page {
        Some(pg) => pg.width_dots.is_some() || pg.height_dots.is_some(),
        None => false,
    }
}

} // verus!
