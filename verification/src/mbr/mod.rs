//! MBR and the extended boot record chain.

pub mod desc;
pub mod ebr;
pub mod entry;
pub mod field_laws;
pub mod finding;
pub mod laws;
pub mod reader;
pub mod severity_laws;
pub mod synth;
pub mod types;

pub use crate::mbr::reader::{MbrProbe, MbrReader};
pub use crate::mbr::synth::synth_mbr;
pub use crate::mbr::types::is_extended;

use crate::registry::{Format, Registry};
use vstd::prelude::*;

verus! {

/// Look for this format too.
pub fn register(reg: &mut Registry)
    ensures
        final(reg)@ == old(reg)@.push(Format::Mbr),
{
    reg.register(Format::Mbr);
}

} // verus!
