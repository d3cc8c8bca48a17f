//! FAT12, FAT16 and FAT32.

pub mod boot;
pub mod chain;
pub mod desc;
pub mod directory;
pub mod entry;
pub mod field_laws;
pub mod finding;
pub mod geometry;
pub mod kind;
pub mod laws;
pub mod listing_laws;
pub mod name;
pub mod scrub;
pub mod severity_laws;
pub mod synth;
pub mod tables;
pub mod volume;
pub mod volume_laws;

pub use crate::fat::chain::{fat_entry, follow_chain, ChainEnd};
pub use crate::fat::geometry::Geom;
pub use crate::fat::kind::FatKind;
pub use crate::fat::synth::{synth_entry, synth_fat32};
pub use crate::fat::volume::{FatProbe, FatReader};

use crate::registry::{Format, Registry};
use vstd::prelude::*;

verus! {

/// Look for this format too.
pub fn register(reg: &mut Registry)
    ensures
        final(reg)@ == old(reg)@.push(Format::Fat),
{
    reg.register(Format::Fat);
}

} // verus!
