//! GPT, the GUID Partition Table.
//!
//! Three things make it worth more than its twenty fields. It holds two checksums of
//! different shapes: one over the header itself and one over bytes in a different part
//! of the disk. It holds two copies of everything, which disagree by design in exactly
//! four fields. And its unused entries are evidence.

pub mod array;
pub mod attributes;
pub mod compare;
pub mod desc;
pub mod entry;
pub mod field_laws;
pub mod finding;
pub mod guids;
pub mod header;
pub mod laws;
pub mod reader;
pub mod severity_laws;
pub mod synth;

pub use crate::gpt::compare::{diff_headers, HeaderDiff, MIRRORED_FIELDS};
pub use crate::gpt::guids::{guid, is_unused, type_label};
pub use crate::gpt::reader::{GptProbe, GptReader};
pub use crate::gpt::synth::synth_gpt;

use crate::registry::{Format, Registry};
use vstd::prelude::*;

verus! {

/// Look for this format too.
pub fn register(reg: &mut Registry)
    ensures
        final(reg)@ == old(reg)@.push(Format::Gpt),
{
    reg.register(Format::Gpt);
}

} // verus!
