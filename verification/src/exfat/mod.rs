//! exFAT: boot regions, FAT, allocation bitmap, up-case table and directory entry
//! sets.

pub mod bitmap;
pub mod boot;
pub mod chain;
pub mod content_laws;
pub mod desc;
pub mod directory;
pub mod entry;
pub mod entry_set;
pub mod fat_table;
pub mod field_laws;
pub mod finding;
pub mod geometry;
pub mod laws;
pub mod scrub;
pub mod scrub_laws;
pub mod severity_laws;
pub mod synth;
pub mod types;
pub mod upcase;
pub mod volume;
pub mod volume_laws;

pub use crate::exfat::geometry::Geometry;
pub use crate::exfat::synth::{synth_entry_set, synth_volume};
pub use crate::exfat::volume::{ExfatProbe, ExfatReader};

use crate::registry::{Format, Registry};
use vstd::prelude::*;

verus! {

/// Look for this format too.
pub fn register(reg: &mut Registry)
    ensures
        final(reg)@ == old(reg)@.push(Format::Exfat),
{
    reg.register(Format::Exfat);
}

} // verus!
