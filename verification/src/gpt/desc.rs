//! GPT record layouts.

use crate::desc;
use crate::desc::{Check, DescModel, FieldDesc, StructDesc};
use vstd::prelude::*;

verus! {

/// Revision 1.0, major in the high 16 bits.
pub const REVISION_1_0: u32 = 0x0001_0000;

/// A header is at least this many bytes and no more than one block.
pub const MIN_HEADER_SIZE: u32 = 92;

/// The fields of the GPT header, in order.
pub open spec fn gpt_header_fields() -> Seq<FieldDesc> {
    seq![
        FieldDesc { name: "signature", off: 0x00, width: 8, check: Check::Equal { value: 0x5452415020494645 } },
        FieldDesc { name: "revision", off: 0x08, width: 4, check: Check::Equal { value: 0x0001_0000 } },
        FieldDesc { name: "header_size", off: 0x0C, width: 4, check: Check::Range { lo: 92, hi: 4096 } },
        FieldDesc { name: "header_crc32", off: 0x10, width: 4, check: Check::Any },
        FieldDesc { name: "reserved", off: 0x14, width: 4, check: Check::Any },
        FieldDesc { name: "my_lba", off: 0x18, width: 8, check: Check::Any },
        FieldDesc { name: "alternate_lba", off: 0x20, width: 8, check: Check::Any },
        FieldDesc { name: "first_usable_lba", off: 0x28, width: 8, check: Check::Any },
        FieldDesc { name: "last_usable_lba", off: 0x30, width: 8, check: Check::Any },
        FieldDesc { name: "disk_guid", off: 0x38, width: 16, check: Check::Any },
        FieldDesc { name: "entries_lba", off: 0x48, width: 8, check: Check::Any },
        FieldDesc { name: "num_entries", off: 0x50, width: 4, check: Check::Any },
        FieldDesc { name: "entry_size", off: 0x54, width: 4, check: Check::Range { lo: 128, hi: 4096 } },
        FieldDesc { name: "entries_crc32", off: 0x58, width: 4, check: Check::Any },
    ]
}

/// Layout of the GPT header: 92 bytes, tiled exactly.
pub fn gpt_header() -> (r: StructDesc)
    ensures
        r.name@ == "GPT header"@,
        r.size == 92,
        r.fields@ == gpt_header_fields(),
        r.tiles(),
{
    let fields: Vec<FieldDesc> = vec![
        FieldDesc { name: "signature", off: 0x00, width: 8, check: Check::Equal { value: 0x5452415020494645 } },
        FieldDesc { name: "revision", off: 0x08, width: 4, check: Check::Equal { value: 0x0001_0000 } },
        FieldDesc { name: "header_size", off: 0x0C, width: 4, check: Check::Range { lo: 92, hi: 4096 } },
        FieldDesc { name: "header_crc32", off: 0x10, width: 4, check: Check::Any },
        FieldDesc { name: "reserved", off: 0x14, width: 4, check: Check::Any },
        FieldDesc { name: "my_lba", off: 0x18, width: 8, check: Check::Any },
        FieldDesc { name: "alternate_lba", off: 0x20, width: 8, check: Check::Any },
        FieldDesc { name: "first_usable_lba", off: 0x28, width: 8, check: Check::Any },
        FieldDesc { name: "last_usable_lba", off: 0x30, width: 8, check: Check::Any },
        FieldDesc { name: "disk_guid", off: 0x38, width: 16, check: Check::Any },
        FieldDesc { name: "entries_lba", off: 0x48, width: 8, check: Check::Any },
        FieldDesc { name: "num_entries", off: 0x50, width: 4, check: Check::Any },
        FieldDesc { name: "entry_size", off: 0x54, width: 4, check: Check::Range { lo: 128, hi: 4096 } },
        FieldDesc { name: "entries_crc32", off: 0x58, width: 4, check: Check::Any },
    ];
    assert(fields@ =~= gpt_header_fields());
    StructDesc { name: "GPT header", size: 92, fields }
}

/// The fields of the GPT partition entry, in order.
pub open spec fn gpt_entry_fields() -> Seq<FieldDesc> {
    seq![
        FieldDesc { name: "type_guid", off: 0x00, width: 16, check: Check::Any },
        FieldDesc { name: "unique_guid", off: 0x10, width: 16, check: Check::Any },
        FieldDesc { name: "first_lba", off: 0x20, width: 8, check: Check::Any },
        FieldDesc { name: "last_lba", off: 0x28, width: 8, check: Check::Any },
        FieldDesc { name: "attributes", off: 0x30, width: 8, check: Check::Any },
        FieldDesc { name: "name", off: 0x38, width: 72, check: Check::Any },
    ]
}

/// Layout of the GPT partition entry: 128 bytes, tiled exactly.
pub fn gpt_entry() -> (r: StructDesc)
    ensures
        r.name@ == "GPT partition entry"@,
        r.size == 128,
        r.fields@ == gpt_entry_fields(),
        r.tiles(),
{
    let fields: Vec<FieldDesc> = vec![
        FieldDesc { name: "type_guid", off: 0x00, width: 16, check: Check::Any },
        FieldDesc { name: "unique_guid", off: 0x10, width: 16, check: Check::Any },
        FieldDesc { name: "first_lba", off: 0x20, width: 8, check: Check::Any },
        FieldDesc { name: "last_lba", off: 0x28, width: 8, check: Check::Any },
        FieldDesc { name: "attributes", off: 0x30, width: 8, check: Check::Any },
        FieldDesc { name: "name", off: 0x38, width: 72, check: Check::Any },
    ];
    assert(fields@ =~= gpt_entry_fields());
    StructDesc { name: "GPT partition entry", size: 128, fields }
}

/// The layouts this module defines.
pub open spec fn layouts() -> Seq<DescModel> {
    seq![
        DescModel { name: "GPT header"@, size: 92, fields: gpt_header_fields() },
        DescModel { name: "GPT partition entry"@, size: 128, fields: gpt_entry_fields() },
    ]
}

/// Every layout this module defines.
pub fn all() -> (r: Vec<StructDesc>)
    ensures
        desc::models(r@) == layouts(),
        desc::all_tile(r@),
{
    let r: Vec<StructDesc> = vec![
        gpt_header(),
        gpt_entry(),
    ];
    assert(desc::models(r@) =~= layouts());
    r
}

} // verus!
