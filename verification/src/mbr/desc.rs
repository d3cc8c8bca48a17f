//! MBR record layouts.

use crate::desc;
use crate::desc::{Check, DescModel, FieldDesc, StructDesc};
use vstd::prelude::*;

verus! {

/// Size of one entry.
pub const ENTRY_SIZE: u64 = 16;

/// Offset of the 55 AA marker.
pub const BOOT_SIG_OFFSET: u64 = 0x1FE;

/// The fields of the partition entry, in order.
pub open spec fn part_entry_fields() -> Seq<FieldDesc> {
    seq![
        FieldDesc { name: "status", off: 0x00, width: 1, check: Check::OneOf { a: 0x00, b: 0x80 } },
        FieldDesc { name: "chs_first", off: 0x01, width: 3, check: Check::Any },
        FieldDesc { name: "part_type", off: 0x04, width: 1, check: Check::Any },
        FieldDesc { name: "chs_last", off: 0x05, width: 3, check: Check::Any },
        FieldDesc { name: "lba_first", off: 0x08, width: 4, check: Check::Any },
        FieldDesc { name: "num_sectors", off: 0x0C, width: 4, check: Check::Any },
    ]
}

/// Layout of the partition entry: 16 bytes, tiled exactly.
pub fn part_entry() -> (r: StructDesc)
    ensures
        r.name@ == "partition entry"@,
        r.size == 16,
        r.fields@ == part_entry_fields(),
        r.tiles(),
{
    let fields: Vec<FieldDesc> = vec![
        FieldDesc { name: "status", off: 0x00, width: 1, check: Check::OneOf { a: 0x00, b: 0x80 } },
        FieldDesc { name: "chs_first", off: 0x01, width: 3, check: Check::Any },
        FieldDesc { name: "part_type", off: 0x04, width: 1, check: Check::Any },
        FieldDesc { name: "chs_last", off: 0x05, width: 3, check: Check::Any },
        FieldDesc { name: "lba_first", off: 0x08, width: 4, check: Check::Any },
        FieldDesc { name: "num_sectors", off: 0x0C, width: 4, check: Check::Any },
    ];
    assert(fields@ =~= part_entry_fields());
    StructDesc { name: "partition entry", size: 16, fields }
}

/// The fields of the MBR, in order.
pub open spec fn mbr_header_fields() -> Seq<FieldDesc> {
    seq![
        FieldDesc { name: "bootstrap", off: 0x00, width: 440, check: Check::Any },
        FieldDesc { name: "disk_signature", off: 0x1B8, width: 4, check: Check::Any },
        FieldDesc { name: "copy_protect", off: 0x1BC, width: 2, check: Check::Any },
        FieldDesc { name: "entries", off: 0x1BE, width: 64, check: Check::Any },
        FieldDesc { name: "boot_signature", off: 0x1FE, width: 2, check: Check::Equal { value: 0xAA55 } },
    ]
}

/// Layout of the MBR: 512 bytes, tiled exactly.
pub fn mbr_header() -> (r: StructDesc)
    ensures
        r.name@ == "MBR"@,
        r.size == 512,
        r.fields@ == mbr_header_fields(),
        r.tiles(),
{
    let fields: Vec<FieldDesc> = vec![
        FieldDesc { name: "bootstrap", off: 0x00, width: 440, check: Check::Any },
        FieldDesc { name: "disk_signature", off: 0x1B8, width: 4, check: Check::Any },
        FieldDesc { name: "copy_protect", off: 0x1BC, width: 2, check: Check::Any },
        FieldDesc { name: "entries", off: 0x1BE, width: 64, check: Check::Any },
        FieldDesc { name: "boot_signature", off: 0x1FE, width: 2, check: Check::Equal { value: 0xAA55 } },
    ];
    assert(fields@ =~= mbr_header_fields());
    StructDesc { name: "MBR", size: 512, fields }
}

/// The fields of the EBR, in order.
pub open spec fn ebr_header_fields() -> Seq<FieldDesc> {
    seq![
        FieldDesc { name: "unused_code", off: 0x00, width: 440, check: Check::Any },
        FieldDesc { name: "unused_signature", off: 0x1B8, width: 4, check: Check::Any },
        FieldDesc { name: "reserved", off: 0x1BC, width: 2, check: Check::Any },
        FieldDesc { name: "entries", off: 0x1BE, width: 64, check: Check::Any },
        FieldDesc { name: "boot_signature", off: 0x1FE, width: 2, check: Check::Equal { value: 0xAA55 } },
    ]
}

/// Layout of the EBR: 512 bytes, tiled exactly.
pub fn ebr_header() -> (r: StructDesc)
    ensures
        r.name@ == "EBR"@,
        r.size == 512,
        r.fields@ == ebr_header_fields(),
        r.tiles(),
{
    let fields: Vec<FieldDesc> = vec![
        FieldDesc { name: "unused_code", off: 0x00, width: 440, check: Check::Any },
        FieldDesc { name: "unused_signature", off: 0x1B8, width: 4, check: Check::Any },
        FieldDesc { name: "reserved", off: 0x1BC, width: 2, check: Check::Any },
        FieldDesc { name: "entries", off: 0x1BE, width: 64, check: Check::Any },
        FieldDesc { name: "boot_signature", off: 0x1FE, width: 2, check: Check::Equal { value: 0xAA55 } },
    ];
    assert(fields@ =~= ebr_header_fields());
    StructDesc { name: "EBR", size: 512, fields }
}

/// The layouts this module defines.
pub open spec fn layouts() -> Seq<DescModel> {
    seq![
        DescModel { name: "partition entry"@, size: 16, fields: part_entry_fields() },
        DescModel { name: "MBR"@, size: 512, fields: mbr_header_fields() },
        DescModel { name: "EBR"@, size: 512, fields: ebr_header_fields() },
    ]
}

/// Every layout this module defines.
pub fn all() -> (r: Vec<StructDesc>)
    ensures
        desc::models(r@) == layouts(),
        desc::all_tile(r@),
{
    let r: Vec<StructDesc> = vec![
        part_entry(),
        mbr_header(),
        ebr_header(),
    ];
    assert(desc::models(r@) =~= layouts());
    r
}

} // verus!
