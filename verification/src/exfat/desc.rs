//! exFAT record layouts.

use crate::desc;
use crate::desc::{Check, DescModel, FieldDesc, StructDesc};
use vstd::prelude::*;

verus! {

/// Sectors 0..=11 of a volume, and again at 12..=23 as the backup.
pub const BOOT_REGION_SECTORS: u64 = 12;

/// Sector, within a boot region, of the first extended boot sector.
pub const EXT_BOOT_FIRST_SECTOR: u64 = 1;

/// Sector of the OEM parameters.
pub const OEM_PARAM_SECTOR: u64 = 9;

/// Sector that is reserved.
pub const RESERVED_SECTOR: u64 = 10;

/// Sector that holds the boot checksum.
pub const BOOT_CHECKSUM_SECTOR: u64 = 11;

/// Sector at which the backup boot region starts.
pub const BACKUP_BOOT_SECTOR: u64 = 12;

/// Number of OEM parameter records in their sector.
pub const OEM_PARAM_COUNT: u64 = 10;

/// The fields of the exFAT boot sector, in order.
pub open spec fn main_boot_sector_fields() -> Seq<FieldDesc> {
    seq![
        FieldDesc { name: "jump_boot", off: 0x00, width: 3, check: Check::Equal { value: 0x9076EB } },
        FieldDesc { name: "fs_name", off: 0x03, width: 8, check: Check::Equal { value: 0x2020205441465845 } },
        FieldDesc { name: "must_be_zero", off: 0x0B, width: 53, check: Check::AllZero },
        FieldDesc { name: "partition_offset", off: 0x40, width: 8, check: Check::Any },
        FieldDesc { name: "volume_length", off: 0x48, width: 8, check: Check::NonZero },
        FieldDesc { name: "fat_offset", off: 0x50, width: 4, check: Check::Range { lo: 24, hi: 0x00FF_FFFF } },
        FieldDesc { name: "fat_length", off: 0x54, width: 4, check: Check::NonZero },
        FieldDesc { name: "cluster_heap_offset", off: 0x58, width: 4, check: Check::NonZero },
        FieldDesc { name: "cluster_count", off: 0x5C, width: 4, check: Check::Any },
        FieldDesc { name: "first_cluster_of_root", off: 0x60, width: 4, check: Check::Any },
        FieldDesc { name: "volume_serial_number", off: 0x64, width: 4, check: Check::Any },
        FieldDesc { name: "fs_revision", off: 0x68, width: 2, check: Check::Any },
        FieldDesc { name: "volume_flags", off: 0x6A, width: 2, check: Check::Any },
        FieldDesc { name: "bytes_per_sector_shift", off: 0x6C, width: 1, check: Check::Range { lo: 9, hi: 12 } },
        FieldDesc { name: "sectors_per_cluster_shift", off: 0x6D, width: 1, check: Check::Range { lo: 0, hi: 25 } },
        FieldDesc { name: "number_of_fats", off: 0x6E, width: 1, check: Check::OneOf { a: 1, b: 2 } },
        FieldDesc { name: "drive_select", off: 0x6F, width: 1, check: Check::Any },
        FieldDesc { name: "percent_in_use", off: 0x70, width: 1, check: Check::Any },
        FieldDesc { name: "reserved", off: 0x71, width: 7, check: Check::Any },
        FieldDesc { name: "boot_code", off: 0x78, width: 390, check: Check::Any },
        FieldDesc { name: "boot_signature", off: 0x1FE, width: 2, check: Check::Equal { value: 0xAA55 } },
    ]
}

/// Layout of the exFAT boot sector: 512 bytes, tiled exactly.
pub fn main_boot_sector() -> (r: StructDesc)
    ensures
        r.name@ == "exFAT boot sector"@,
        r.size == 512,
        r.fields@ == main_boot_sector_fields(),
        r.tiles(),
{
    let fields: Vec<FieldDesc> = vec![
        FieldDesc { name: "jump_boot", off: 0x00, width: 3, check: Check::Equal { value: 0x9076EB } },
        FieldDesc { name: "fs_name", off: 0x03, width: 8, check: Check::Equal { value: 0x2020205441465845 } },
        FieldDesc { name: "must_be_zero", off: 0x0B, width: 53, check: Check::AllZero },
        FieldDesc { name: "partition_offset", off: 0x40, width: 8, check: Check::Any },
        FieldDesc { name: "volume_length", off: 0x48, width: 8, check: Check::NonZero },
        FieldDesc { name: "fat_offset", off: 0x50, width: 4, check: Check::Range { lo: 24, hi: 0x00FF_FFFF } },
        FieldDesc { name: "fat_length", off: 0x54, width: 4, check: Check::NonZero },
        FieldDesc { name: "cluster_heap_offset", off: 0x58, width: 4, check: Check::NonZero },
        FieldDesc { name: "cluster_count", off: 0x5C, width: 4, check: Check::Any },
        FieldDesc { name: "first_cluster_of_root", off: 0x60, width: 4, check: Check::Any },
        FieldDesc { name: "volume_serial_number", off: 0x64, width: 4, check: Check::Any },
        FieldDesc { name: "fs_revision", off: 0x68, width: 2, check: Check::Any },
        FieldDesc { name: "volume_flags", off: 0x6A, width: 2, check: Check::Any },
        FieldDesc { name: "bytes_per_sector_shift", off: 0x6C, width: 1, check: Check::Range { lo: 9, hi: 12 } },
        FieldDesc { name: "sectors_per_cluster_shift", off: 0x6D, width: 1, check: Check::Range { lo: 0, hi: 25 } },
        FieldDesc { name: "number_of_fats", off: 0x6E, width: 1, check: Check::OneOf { a: 1, b: 2 } },
        FieldDesc { name: "drive_select", off: 0x6F, width: 1, check: Check::Any },
        FieldDesc { name: "percent_in_use", off: 0x70, width: 1, check: Check::Any },
        FieldDesc { name: "reserved", off: 0x71, width: 7, check: Check::Any },
        FieldDesc { name: "boot_code", off: 0x78, width: 390, check: Check::Any },
        FieldDesc { name: "boot_signature", off: 0x1FE, width: 2, check: Check::Equal { value: 0xAA55 } },
    ];
    assert(fields@ =~= main_boot_sector_fields());
    StructDesc { name: "exFAT boot sector", size: 512, fields }
}

/// The fields of the exFAT extended boot sector, in order.
pub open spec fn ext_boot_sector_fields() -> Seq<FieldDesc> {
    seq![
        FieldDesc { name: "ext_boot_code", off: 0x00, width: 508, check: Check::Any },
        FieldDesc { name: "ext_boot_signature", off: 0x1FC, width: 4, check: Check::Equal { value: 0xAA55_0000 } },
    ]
}

/// Layout of the exFAT extended boot sector: 512 bytes, tiled exactly.
pub fn ext_boot_sector() -> (r: StructDesc)
    ensures
        r.name@ == "exFAT extended boot sector"@,
        r.size == 512,
        r.fields@ == ext_boot_sector_fields(),
        r.tiles(),
{
    let fields: Vec<FieldDesc> = vec![
        FieldDesc { name: "ext_boot_code", off: 0x00, width: 508, check: Check::Any },
        FieldDesc { name: "ext_boot_signature", off: 0x1FC, width: 4, check: Check::Equal { value: 0xAA55_0000 } },
    ];
    assert(fields@ =~= ext_boot_sector_fields());
    StructDesc { name: "exFAT extended boot sector", size: 512, fields }
}

/// The fields of the exFAT OEM parameter, in order.
pub open spec fn oem_param_fields() -> Seq<FieldDesc> {
    seq![
        FieldDesc { name: "parameters_guid", off: 0x00, width: 16, check: Check::Any },
        FieldDesc { name: "custom_defined", off: 0x10, width: 32, check: Check::Any },
    ]
}

/// Layout of the exFAT OEM parameter: 48 bytes, tiled exactly.
pub fn oem_param() -> (r: StructDesc)
    ensures
        r.name@ == "exFAT OEM parameter"@,
        r.size == 48,
        r.fields@ == oem_param_fields(),
        r.tiles(),
{
    let fields: Vec<FieldDesc> = vec![
        FieldDesc { name: "parameters_guid", off: 0x00, width: 16, check: Check::Any },
        FieldDesc { name: "custom_defined", off: 0x10, width: 32, check: Check::Any },
    ];
    assert(fields@ =~= oem_param_fields());
    StructDesc { name: "exFAT OEM parameter", size: 48, fields }
}

/// The fields of the exFAT allocation bitmap entry, in order.
pub open spec fn allocation_bitmap_fields() -> Seq<FieldDesc> {
    seq![
        FieldDesc { name: "entry_type", off: 0x00, width: 1, check: Check::Any },
        FieldDesc { name: "bitmap_flags", off: 0x01, width: 1, check: Check::Any },
        FieldDesc { name: "reserved", off: 0x02, width: 18, check: Check::Any },
        FieldDesc { name: "first_cluster", off: 0x14, width: 4, check: Check::Any },
        FieldDesc { name: "data_length", off: 0x18, width: 8, check: Check::Any },
    ]
}

/// Layout of the exFAT allocation bitmap entry: 32 bytes, tiled exactly.
pub fn allocation_bitmap() -> (r: StructDesc)
    ensures
        r.name@ == "exFAT allocation bitmap entry"@,
        r.size == 32,
        r.fields@ == allocation_bitmap_fields(),
        r.tiles(),
{
    let fields: Vec<FieldDesc> = vec![
        FieldDesc { name: "entry_type", off: 0x00, width: 1, check: Check::Any },
        FieldDesc { name: "bitmap_flags", off: 0x01, width: 1, check: Check::Any },
        FieldDesc { name: "reserved", off: 0x02, width: 18, check: Check::Any },
        FieldDesc { name: "first_cluster", off: 0x14, width: 4, check: Check::Any },
        FieldDesc { name: "data_length", off: 0x18, width: 8, check: Check::Any },
    ];
    assert(fields@ =~= allocation_bitmap_fields());
    StructDesc { name: "exFAT allocation bitmap entry", size: 32, fields }
}

/// The fields of the exFAT up-case table entry, in order.
pub open spec fn upcase_table_fields() -> Seq<FieldDesc> {
    seq![
        FieldDesc { name: "entry_type", off: 0x00, width: 1, check: Check::Any },
        FieldDesc { name: "reserved1", off: 0x01, width: 3, check: Check::Any },
        FieldDesc { name: "table_checksum", off: 0x04, width: 4, check: Check::Any },
        FieldDesc { name: "reserved2", off: 0x08, width: 12, check: Check::Any },
        FieldDesc { name: "first_cluster", off: 0x14, width: 4, check: Check::Any },
        FieldDesc { name: "data_length", off: 0x18, width: 8, check: Check::Any },
    ]
}

/// Layout of the exFAT up-case table entry: 32 bytes, tiled exactly.
pub fn upcase_table() -> (r: StructDesc)
    ensures
        r.name@ == "exFAT up-case table entry"@,
        r.size == 32,
        r.fields@ == upcase_table_fields(),
        r.tiles(),
{
    let fields: Vec<FieldDesc> = vec![
        FieldDesc { name: "entry_type", off: 0x00, width: 1, check: Check::Any },
        FieldDesc { name: "reserved1", off: 0x01, width: 3, check: Check::Any },
        FieldDesc { name: "table_checksum", off: 0x04, width: 4, check: Check::Any },
        FieldDesc { name: "reserved2", off: 0x08, width: 12, check: Check::Any },
        FieldDesc { name: "first_cluster", off: 0x14, width: 4, check: Check::Any },
        FieldDesc { name: "data_length", off: 0x18, width: 8, check: Check::Any },
    ];
    assert(fields@ =~= upcase_table_fields());
    StructDesc { name: "exFAT up-case table entry", size: 32, fields }
}

/// The fields of the exFAT volume label entry, in order.
pub open spec fn volume_label_fields() -> Seq<FieldDesc> {
    seq![
        FieldDesc { name: "entry_type", off: 0x00, width: 1, check: Check::Any },
        FieldDesc { name: "character_count", off: 0x01, width: 1, check: Check::Range { lo: 0, hi: 11 } },
        FieldDesc { name: "volume_label", off: 0x02, width: 22, check: Check::Any },
        FieldDesc { name: "reserved", off: 0x18, width: 8, check: Check::Any },
    ]
}

/// Layout of the exFAT volume label entry: 32 bytes, tiled exactly.
pub fn volume_label() -> (r: StructDesc)
    ensures
        r.name@ == "exFAT volume label entry"@,
        r.size == 32,
        r.fields@ == volume_label_fields(),
        r.tiles(),
{
    let fields: Vec<FieldDesc> = vec![
        FieldDesc { name: "entry_type", off: 0x00, width: 1, check: Check::Any },
        FieldDesc { name: "character_count", off: 0x01, width: 1, check: Check::Range { lo: 0, hi: 11 } },
        FieldDesc { name: "volume_label", off: 0x02, width: 22, check: Check::Any },
        FieldDesc { name: "reserved", off: 0x18, width: 8, check: Check::Any },
    ];
    assert(fields@ =~= volume_label_fields());
    StructDesc { name: "exFAT volume label entry", size: 32, fields }
}

/// The fields of the exFAT file entry, in order.
pub open spec fn file_entry_fields() -> Seq<FieldDesc> {
    seq![
        FieldDesc { name: "entry_type", off: 0x00, width: 1, check: Check::Any },
        FieldDesc { name: "secondary_count", off: 0x01, width: 1, check: Check::Range { lo: 2, hi: 18 } },
        FieldDesc { name: "set_checksum", off: 0x02, width: 2, check: Check::Any },
        FieldDesc { name: "file_attributes", off: 0x04, width: 2, check: Check::Any },
        FieldDesc { name: "reserved1", off: 0x06, width: 2, check: Check::Any },
        FieldDesc { name: "create_timestamp", off: 0x08, width: 4, check: Check::Any },
        FieldDesc { name: "last_modified_timestamp", off: 0x0C, width: 4, check: Check::Any },
        FieldDesc { name: "last_accessed_timestamp", off: 0x10, width: 4, check: Check::Any },
        FieldDesc { name: "create_10ms_increment", off: 0x14, width: 1, check: Check::Range { lo: 0, hi: 199 } },
        FieldDesc { name: "last_modified_10ms_increment", off: 0x15, width: 1, check: Check::Range { lo: 0, hi: 199 } },
        FieldDesc { name: "create_utc_offset", off: 0x16, width: 1, check: Check::Any },
        FieldDesc { name: "last_modified_utc_offset", off: 0x17, width: 1, check: Check::Any },
        FieldDesc { name: "last_accessed_utc_offset", off: 0x18, width: 1, check: Check::Any },
        FieldDesc { name: "reserved2", off: 0x19, width: 7, check: Check::Any },
    ]
}

/// Layout of the exFAT file entry: 32 bytes, tiled exactly.
pub fn file_entry() -> (r: StructDesc)
    ensures
        r.name@ == "exFAT file entry"@,
        r.size == 32,
        r.fields@ == file_entry_fields(),
        r.tiles(),
{
    let fields: Vec<FieldDesc> = vec![
        FieldDesc { name: "entry_type", off: 0x00, width: 1, check: Check::Any },
        FieldDesc { name: "secondary_count", off: 0x01, width: 1, check: Check::Range { lo: 2, hi: 18 } },
        FieldDesc { name: "set_checksum", off: 0x02, width: 2, check: Check::Any },
        FieldDesc { name: "file_attributes", off: 0x04, width: 2, check: Check::Any },
        FieldDesc { name: "reserved1", off: 0x06, width: 2, check: Check::Any },
        FieldDesc { name: "create_timestamp", off: 0x08, width: 4, check: Check::Any },
        FieldDesc { name: "last_modified_timestamp", off: 0x0C, width: 4, check: Check::Any },
        FieldDesc { name: "last_accessed_timestamp", off: 0x10, width: 4, check: Check::Any },
        FieldDesc { name: "create_10ms_increment", off: 0x14, width: 1, check: Check::Range { lo: 0, hi: 199 } },
        FieldDesc { name: "last_modified_10ms_increment", off: 0x15, width: 1, check: Check::Range { lo: 0, hi: 199 } },
        FieldDesc { name: "create_utc_offset", off: 0x16, width: 1, check: Check::Any },
        FieldDesc { name: "last_modified_utc_offset", off: 0x17, width: 1, check: Check::Any },
        FieldDesc { name: "last_accessed_utc_offset", off: 0x18, width: 1, check: Check::Any },
        FieldDesc { name: "reserved2", off: 0x19, width: 7, check: Check::Any },
    ];
    assert(fields@ =~= file_entry_fields());
    StructDesc { name: "exFAT file entry", size: 32, fields }
}

/// The fields of the exFAT stream extension entry, in order.
pub open spec fn stream_extension_fields() -> Seq<FieldDesc> {
    seq![
        FieldDesc { name: "entry_type", off: 0x00, width: 1, check: Check::Any },
        FieldDesc { name: "general_secondary_flags", off: 0x01, width: 1, check: Check::Any },
        FieldDesc { name: "reserved1", off: 0x02, width: 1, check: Check::Any },
        FieldDesc { name: "name_length", off: 0x03, width: 1, check: Check::Range { lo: 1, hi: 255 } },
        FieldDesc { name: "name_hash", off: 0x04, width: 2, check: Check::Any },
        FieldDesc { name: "reserved2", off: 0x06, width: 2, check: Check::Any },
        FieldDesc { name: "valid_data_length", off: 0x08, width: 8, check: Check::Any },
        FieldDesc { name: "reserved3", off: 0x10, width: 4, check: Check::Any },
        FieldDesc { name: "first_cluster", off: 0x14, width: 4, check: Check::Any },
        FieldDesc { name: "data_length", off: 0x18, width: 8, check: Check::Any },
    ]
}

/// Layout of the exFAT stream extension entry: 32 bytes, tiled exactly.
pub fn stream_extension() -> (r: StructDesc)
    ensures
        r.name@ == "exFAT stream extension entry"@,
        r.size == 32,
        r.fields@ == stream_extension_fields(),
        r.tiles(),
{
    let fields: Vec<FieldDesc> = vec![
        FieldDesc { name: "entry_type", off: 0x00, width: 1, check: Check::Any },
        FieldDesc { name: "general_secondary_flags", off: 0x01, width: 1, check: Check::Any },
        FieldDesc { name: "reserved1", off: 0x02, width: 1, check: Check::Any },
        FieldDesc { name: "name_length", off: 0x03, width: 1, check: Check::Range { lo: 1, hi: 255 } },
        FieldDesc { name: "name_hash", off: 0x04, width: 2, check: Check::Any },
        FieldDesc { name: "reserved2", off: 0x06, width: 2, check: Check::Any },
        FieldDesc { name: "valid_data_length", off: 0x08, width: 8, check: Check::Any },
        FieldDesc { name: "reserved3", off: 0x10, width: 4, check: Check::Any },
        FieldDesc { name: "first_cluster", off: 0x14, width: 4, check: Check::Any },
        FieldDesc { name: "data_length", off: 0x18, width: 8, check: Check::Any },
    ];
    assert(fields@ =~= stream_extension_fields());
    StructDesc { name: "exFAT stream extension entry", size: 32, fields }
}

/// The fields of the exFAT file name entry, in order.
pub open spec fn file_name_fields() -> Seq<FieldDesc> {
    seq![
        FieldDesc { name: "entry_type", off: 0x00, width: 1, check: Check::Any },
        FieldDesc { name: "general_secondary_flags", off: 0x01, width: 1, check: Check::Any },
        FieldDesc { name: "file_name", off: 0x02, width: 30, check: Check::Any },
    ]
}

/// Layout of the exFAT file name entry: 32 bytes, tiled exactly.
pub fn file_name() -> (r: StructDesc)
    ensures
        r.name@ == "exFAT file name entry"@,
        r.size == 32,
        r.fields@ == file_name_fields(),
        r.tiles(),
{
    let fields: Vec<FieldDesc> = vec![
        FieldDesc { name: "entry_type", off: 0x00, width: 1, check: Check::Any },
        FieldDesc { name: "general_secondary_flags", off: 0x01, width: 1, check: Check::Any },
        FieldDesc { name: "file_name", off: 0x02, width: 30, check: Check::Any },
    ];
    assert(fields@ =~= file_name_fields());
    StructDesc { name: "exFAT file name entry", size: 32, fields }
}

/// The fields of the exFAT volume GUID entry, in order.
pub open spec fn volume_guid_fields() -> Seq<FieldDesc> {
    seq![
        FieldDesc { name: "entry_type", off: 0x00, width: 1, check: Check::Any },
        FieldDesc { name: "secondary_count", off: 0x01, width: 1, check: Check::Equal { value: 0 } },
        FieldDesc { name: "set_checksum", off: 0x02, width: 2, check: Check::Any },
        FieldDesc { name: "general_primary_flags", off: 0x04, width: 2, check: Check::Any },
        FieldDesc { name: "volume_guid", off: 0x06, width: 16, check: Check::Any },
        FieldDesc { name: "reserved", off: 0x16, width: 10, check: Check::Any },
    ]
}

/// Layout of the exFAT volume GUID entry: 32 bytes, tiled exactly.
pub fn volume_guid() -> (r: StructDesc)
    ensures
        r.name@ == "exFAT volume GUID entry"@,
        r.size == 32,
        r.fields@ == volume_guid_fields(),
        r.tiles(),
{
    let fields: Vec<FieldDesc> = vec![
        FieldDesc { name: "entry_type", off: 0x00, width: 1, check: Check::Any },
        FieldDesc { name: "secondary_count", off: 0x01, width: 1, check: Check::Equal { value: 0 } },
        FieldDesc { name: "set_checksum", off: 0x02, width: 2, check: Check::Any },
        FieldDesc { name: "general_primary_flags", off: 0x04, width: 2, check: Check::Any },
        FieldDesc { name: "volume_guid", off: 0x06, width: 16, check: Check::Any },
        FieldDesc { name: "reserved", off: 0x16, width: 10, check: Check::Any },
    ];
    assert(fields@ =~= volume_guid_fields());
    StructDesc { name: "exFAT volume GUID entry", size: 32, fields }
}

/// The fields of the exFAT directory entry, in order.
pub open spec fn generic_entry_fields() -> Seq<FieldDesc> {
    seq![
        FieldDesc { name: "entry_type", off: 0x00, width: 1, check: Check::Any },
        FieldDesc { name: "entry_data", off: 0x01, width: 31, check: Check::Any },
    ]
}

/// Layout of the exFAT directory entry: 32 bytes, tiled exactly.
pub fn generic_entry() -> (r: StructDesc)
    ensures
        r.name@ == "exFAT directory entry"@,
        r.size == 32,
        r.fields@ == generic_entry_fields(),
        r.tiles(),
{
    let fields: Vec<FieldDesc> = vec![
        FieldDesc { name: "entry_type", off: 0x00, width: 1, check: Check::Any },
        FieldDesc { name: "entry_data", off: 0x01, width: 31, check: Check::Any },
    ];
    assert(fields@ =~= generic_entry_fields());
    StructDesc { name: "exFAT directory entry", size: 32, fields }
}

/// The layouts this module defines.
pub open spec fn layouts() -> Seq<DescModel> {
    seq![
        DescModel { name: "exFAT boot sector"@, size: 512, fields: main_boot_sector_fields() },
        DescModel { name: "exFAT extended boot sector"@, size: 512, fields: ext_boot_sector_fields() },
        DescModel { name: "exFAT OEM parameter"@, size: 48, fields: oem_param_fields() },
        DescModel { name: "exFAT allocation bitmap entry"@, size: 32, fields: allocation_bitmap_fields() },
        DescModel { name: "exFAT up-case table entry"@, size: 32, fields: upcase_table_fields() },
        DescModel { name: "exFAT volume label entry"@, size: 32, fields: volume_label_fields() },
        DescModel { name: "exFAT file entry"@, size: 32, fields: file_entry_fields() },
        DescModel { name: "exFAT stream extension entry"@, size: 32, fields: stream_extension_fields() },
        DescModel { name: "exFAT file name entry"@, size: 32, fields: file_name_fields() },
        DescModel { name: "exFAT volume GUID entry"@, size: 32, fields: volume_guid_fields() },
        DescModel { name: "exFAT directory entry"@, size: 32, fields: generic_entry_fields() },
    ]
}

/// Every layout this module defines.
pub fn all() -> (r: Vec<StructDesc>)
    ensures
        desc::models(r@) == layouts(),
        desc::all_tile(r@),
{
    let r: Vec<StructDesc> = vec![
        main_boot_sector(),
        ext_boot_sector(),
        oem_param(),
        allocation_bitmap(),
        upcase_table(),
        volume_label(),
        file_entry(),
        stream_extension(),
        file_name(),
        volume_guid(),
        generic_entry(),
    ];
    assert(desc::models(r@) =~= layouts());
    r
}

} // verus!
