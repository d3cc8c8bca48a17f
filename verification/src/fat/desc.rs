//! FAT record layouts.

use crate::desc;
use crate::desc::{Check, DescModel, FieldDesc, StructDesc};
use vstd::prelude::*;

verus! {

/// Size of one directory record, short and long alike.
pub const ENTRY_SIZE: u64 = 32;

/// Offset of the 55 AA marker within the boot sector.
pub const BOOT_SIG_OFFSET: u64 = 0x1FE;

/// First name byte of an entry that was deleted.
pub const DELETED_MARK: u8 = 0xE5;

/// First name byte of an entry that was never used; also ends the directory.
pub const FREE_MARK: u8 = 0x00;

/// First name byte meaning "the real first byte is 0xE5", not a deletion.
pub const KANJI_E5: u8 = 0x05;

/// The fields of the FAT BPB, in order.
pub open spec fn bpb_fields() -> Seq<FieldDesc> {
    seq![
        FieldDesc { name: "jmp_boot", off: 0x00, width: 3, check: Check::Any },
        FieldDesc { name: "oem_name", off: 0x03, width: 8, check: Check::Any },
        FieldDesc { name: "bytes_per_sector", off: 0x0B, width: 2, check: Check::PowerOfTwo { lo: 512, hi: 4096 } },
        FieldDesc { name: "sectors_per_cluster", off: 0x0D, width: 1, check: Check::PowerOfTwo { lo: 1, hi: 128 } },
        FieldDesc { name: "reserved_sectors", off: 0x0E, width: 2, check: Check::NonZero },
        FieldDesc { name: "num_fats", off: 0x10, width: 1, check: Check::Range { lo: 1, hi: 2 } },
        FieldDesc { name: "root_entries", off: 0x11, width: 2, check: Check::Any },
        FieldDesc { name: "total_sectors_16", off: 0x13, width: 2, check: Check::Any },
        FieldDesc { name: "media", off: 0x15, width: 1, check: Check::OneOrRange { one: 0xF0, lo: 0xF8, hi: 0xFF } },
        FieldDesc { name: "fat_size_16", off: 0x16, width: 2, check: Check::Any },
        FieldDesc { name: "sectors_per_track", off: 0x18, width: 2, check: Check::Any },
        FieldDesc { name: "num_heads", off: 0x1A, width: 2, check: Check::Any },
        FieldDesc { name: "hidden_sectors", off: 0x1C, width: 4, check: Check::Any },
        FieldDesc { name: "total_sectors_32", off: 0x20, width: 4, check: Check::Any },
    ]
}

/// Layout of the FAT BPB: 36 bytes, tiled exactly.
pub fn bpb() -> (r: StructDesc)
    ensures
        r.name@ == "FAT BPB"@,
        r.size == 36,
        r.fields@ == bpb_fields(),
        r.tiles(),
{
    let fields: Vec<FieldDesc> = vec![
        FieldDesc { name: "jmp_boot", off: 0x00, width: 3, check: Check::Any },
        FieldDesc { name: "oem_name", off: 0x03, width: 8, check: Check::Any },
        FieldDesc { name: "bytes_per_sector", off: 0x0B, width: 2, check: Check::PowerOfTwo { lo: 512, hi: 4096 } },
        FieldDesc { name: "sectors_per_cluster", off: 0x0D, width: 1, check: Check::PowerOfTwo { lo: 1, hi: 128 } },
        FieldDesc { name: "reserved_sectors", off: 0x0E, width: 2, check: Check::NonZero },
        FieldDesc { name: "num_fats", off: 0x10, width: 1, check: Check::Range { lo: 1, hi: 2 } },
        FieldDesc { name: "root_entries", off: 0x11, width: 2, check: Check::Any },
        FieldDesc { name: "total_sectors_16", off: 0x13, width: 2, check: Check::Any },
        FieldDesc { name: "media", off: 0x15, width: 1, check: Check::OneOrRange { one: 0xF0, lo: 0xF8, hi: 0xFF } },
        FieldDesc { name: "fat_size_16", off: 0x16, width: 2, check: Check::Any },
        FieldDesc { name: "sectors_per_track", off: 0x18, width: 2, check: Check::Any },
        FieldDesc { name: "num_heads", off: 0x1A, width: 2, check: Check::Any },
        FieldDesc { name: "hidden_sectors", off: 0x1C, width: 4, check: Check::Any },
        FieldDesc { name: "total_sectors_32", off: 0x20, width: 4, check: Check::Any },
    ];
    assert(fields@ =~= bpb_fields());
    StructDesc { name: "FAT BPB", size: 36, fields }
}

/// The fields of the FAT32 EBPB, in order.
pub open spec fn ebpb32_fields() -> Seq<FieldDesc> {
    seq![
        FieldDesc { name: "fat_size_32", off: 0x00, width: 4, check: Check::NonZero },
        FieldDesc { name: "ext_flags", off: 0x04, width: 2, check: Check::Any },
        FieldDesc { name: "fs_version", off: 0x06, width: 2, check: Check::Equal { value: 0 } },
        FieldDesc { name: "root_cluster", off: 0x08, width: 4, check: Check::Any },
        FieldDesc { name: "fs_info", off: 0x0C, width: 2, check: Check::Any },
        FieldDesc { name: "backup_boot_sector", off: 0x0E, width: 2, check: Check::Any },
        FieldDesc { name: "reserved", off: 0x10, width: 12, check: Check::Any },
        FieldDesc { name: "drive_number", off: 0x1C, width: 1, check: Check::OneOf { a: 0x00, b: 0x80 } },
        FieldDesc { name: "reserved1", off: 0x1D, width: 1, check: Check::Any },
        FieldDesc { name: "boot_signature", off: 0x1E, width: 1, check: Check::OneOf { a: 0x28, b: 0x29 } },
        FieldDesc { name: "volume_id", off: 0x1F, width: 4, check: Check::Any },
        FieldDesc { name: "volume_label", off: 0x23, width: 11, check: Check::Any },
        FieldDesc { name: "fs_type", off: 0x2E, width: 8, check: Check::Any },
    ]
}

/// Layout of the FAT32 EBPB: 54 bytes, tiled exactly.
pub fn ebpb32() -> (r: StructDesc)
    ensures
        r.name@ == "FAT32 EBPB"@,
        r.size == 54,
        r.fields@ == ebpb32_fields(),
        r.tiles(),
{
    let fields: Vec<FieldDesc> = vec![
        FieldDesc { name: "fat_size_32", off: 0x00, width: 4, check: Check::NonZero },
        FieldDesc { name: "ext_flags", off: 0x04, width: 2, check: Check::Any },
        FieldDesc { name: "fs_version", off: 0x06, width: 2, check: Check::Equal { value: 0 } },
        FieldDesc { name: "root_cluster", off: 0x08, width: 4, check: Check::Any },
        FieldDesc { name: "fs_info", off: 0x0C, width: 2, check: Check::Any },
        FieldDesc { name: "backup_boot_sector", off: 0x0E, width: 2, check: Check::Any },
        FieldDesc { name: "reserved", off: 0x10, width: 12, check: Check::Any },
        FieldDesc { name: "drive_number", off: 0x1C, width: 1, check: Check::OneOf { a: 0x00, b: 0x80 } },
        FieldDesc { name: "reserved1", off: 0x1D, width: 1, check: Check::Any },
        FieldDesc { name: "boot_signature", off: 0x1E, width: 1, check: Check::OneOf { a: 0x28, b: 0x29 } },
        FieldDesc { name: "volume_id", off: 0x1F, width: 4, check: Check::Any },
        FieldDesc { name: "volume_label", off: 0x23, width: 11, check: Check::Any },
        FieldDesc { name: "fs_type", off: 0x2E, width: 8, check: Check::Any },
    ];
    assert(fields@ =~= ebpb32_fields());
    StructDesc { name: "FAT32 EBPB", size: 54, fields }
}

/// The fields of the FAT12/16 EBPB, in order.
pub open spec fn ebpb16_fields() -> Seq<FieldDesc> {
    seq![
        FieldDesc { name: "drive_number", off: 0x00, width: 1, check: Check::OneOf { a: 0x00, b: 0x80 } },
        FieldDesc { name: "reserved1", off: 0x01, width: 1, check: Check::Any },
        FieldDesc { name: "boot_signature", off: 0x02, width: 1, check: Check::OneOf { a: 0x28, b: 0x29 } },
        FieldDesc { name: "volume_id", off: 0x03, width: 4, check: Check::Any },
        FieldDesc { name: "volume_label", off: 0x07, width: 11, check: Check::Any },
        FieldDesc { name: "fs_type", off: 0x12, width: 8, check: Check::Any },
    ]
}

/// Layout of the FAT12/16 EBPB: 26 bytes, tiled exactly.
pub fn ebpb16() -> (r: StructDesc)
    ensures
        r.name@ == "FAT12/16 EBPB"@,
        r.size == 26,
        r.fields@ == ebpb16_fields(),
        r.tiles(),
{
    let fields: Vec<FieldDesc> = vec![
        FieldDesc { name: "drive_number", off: 0x00, width: 1, check: Check::OneOf { a: 0x00, b: 0x80 } },
        FieldDesc { name: "reserved1", off: 0x01, width: 1, check: Check::Any },
        FieldDesc { name: "boot_signature", off: 0x02, width: 1, check: Check::OneOf { a: 0x28, b: 0x29 } },
        FieldDesc { name: "volume_id", off: 0x03, width: 4, check: Check::Any },
        FieldDesc { name: "volume_label", off: 0x07, width: 11, check: Check::Any },
        FieldDesc { name: "fs_type", off: 0x12, width: 8, check: Check::Any },
    ];
    assert(fields@ =~= ebpb16_fields());
    StructDesc { name: "FAT12/16 EBPB", size: 26, fields }
}

/// The fields of the FAT32 FSInfo, in order.
pub open spec fn fsinfo_fields() -> Seq<FieldDesc> {
    seq![
        FieldDesc { name: "lead_sig", off: 0x00, width: 4, check: Check::Equal { value: 0x4161_5252 } },
        FieldDesc { name: "reserved", off: 0x04, width: 480, check: Check::Any },
        FieldDesc { name: "struct_sig", off: 0x1E4, width: 4, check: Check::Equal { value: 0x6141_7272 } },
        FieldDesc { name: "free_count", off: 0x1E8, width: 4, check: Check::Any },
        FieldDesc { name: "next_free", off: 0x1EC, width: 4, check: Check::Any },
        FieldDesc { name: "reserved2", off: 0x1F0, width: 12, check: Check::Any },
        FieldDesc { name: "trail_sig", off: 0x1FC, width: 4, check: Check::Equal { value: 0xAA55_0000 } },
    ]
}

/// Layout of the FAT32 FSInfo: 512 bytes, tiled exactly.
pub fn fsinfo() -> (r: StructDesc)
    ensures
        r.name@ == "FAT32 FSInfo"@,
        r.size == 512,
        r.fields@ == fsinfo_fields(),
        r.tiles(),
{
    let fields: Vec<FieldDesc> = vec![
        FieldDesc { name: "lead_sig", off: 0x00, width: 4, check: Check::Equal { value: 0x4161_5252 } },
        FieldDesc { name: "reserved", off: 0x04, width: 480, check: Check::Any },
        FieldDesc { name: "struct_sig", off: 0x1E4, width: 4, check: Check::Equal { value: 0x6141_7272 } },
        FieldDesc { name: "free_count", off: 0x1E8, width: 4, check: Check::Any },
        FieldDesc { name: "next_free", off: 0x1EC, width: 4, check: Check::Any },
        FieldDesc { name: "reserved2", off: 0x1F0, width: 12, check: Check::Any },
        FieldDesc { name: "trail_sig", off: 0x1FC, width: 4, check: Check::Equal { value: 0xAA55_0000 } },
    ];
    assert(fields@ =~= fsinfo_fields());
    StructDesc { name: "FAT32 FSInfo", size: 512, fields }
}

/// The fields of the FAT directory entry, in order.
pub open spec fn dir_entry_fields() -> Seq<FieldDesc> {
    seq![
        FieldDesc { name: "name", off: 0x00, width: 11, check: Check::Any },
        FieldDesc { name: "attr", off: 0x0B, width: 1, check: Check::Any },
        FieldDesc { name: "nt_reserved", off: 0x0C, width: 1, check: Check::Any },
        FieldDesc { name: "crt_time_tenth", off: 0x0D, width: 1, check: Check::Range { lo: 0, hi: 199 } },
        FieldDesc { name: "crt_time", off: 0x0E, width: 2, check: Check::Any },
        FieldDesc { name: "crt_date", off: 0x10, width: 2, check: Check::Any },
        FieldDesc { name: "last_access_date", off: 0x12, width: 2, check: Check::Any },
        FieldDesc { name: "first_cluster_hi", off: 0x14, width: 2, check: Check::Any },
        FieldDesc { name: "write_time", off: 0x16, width: 2, check: Check::Any },
        FieldDesc { name: "write_date", off: 0x18, width: 2, check: Check::Any },
        FieldDesc { name: "first_cluster_lo", off: 0x1A, width: 2, check: Check::Any },
        FieldDesc { name: "file_size", off: 0x1C, width: 4, check: Check::Any },
    ]
}

/// Layout of the FAT directory entry: 32 bytes, tiled exactly.
pub fn dir_entry() -> (r: StructDesc)
    ensures
        r.name@ == "FAT directory entry"@,
        r.size == 32,
        r.fields@ == dir_entry_fields(),
        r.tiles(),
{
    let fields: Vec<FieldDesc> = vec![
        FieldDesc { name: "name", off: 0x00, width: 11, check: Check::Any },
        FieldDesc { name: "attr", off: 0x0B, width: 1, check: Check::Any },
        FieldDesc { name: "nt_reserved", off: 0x0C, width: 1, check: Check::Any },
        FieldDesc { name: "crt_time_tenth", off: 0x0D, width: 1, check: Check::Range { lo: 0, hi: 199 } },
        FieldDesc { name: "crt_time", off: 0x0E, width: 2, check: Check::Any },
        FieldDesc { name: "crt_date", off: 0x10, width: 2, check: Check::Any },
        FieldDesc { name: "last_access_date", off: 0x12, width: 2, check: Check::Any },
        FieldDesc { name: "first_cluster_hi", off: 0x14, width: 2, check: Check::Any },
        FieldDesc { name: "write_time", off: 0x16, width: 2, check: Check::Any },
        FieldDesc { name: "write_date", off: 0x18, width: 2, check: Check::Any },
        FieldDesc { name: "first_cluster_lo", off: 0x1A, width: 2, check: Check::Any },
        FieldDesc { name: "file_size", off: 0x1C, width: 4, check: Check::Any },
    ];
    assert(fields@ =~= dir_entry_fields());
    StructDesc { name: "FAT directory entry", size: 32, fields }
}

/// The fields of the FAT long-filename entry, in order.
pub open spec fn lfn_entry_fields() -> Seq<FieldDesc> {
    seq![
        FieldDesc { name: "order", off: 0x00, width: 1, check: Check::Any },
        FieldDesc { name: "name1", off: 0x01, width: 10, check: Check::Any },
        FieldDesc { name: "attr", off: 0x0B, width: 1, check: Check::Equal { value: 0x0F } },
        FieldDesc { name: "type", off: 0x0C, width: 1, check: Check::AllZero },
        FieldDesc { name: "checksum", off: 0x0D, width: 1, check: Check::Any },
        FieldDesc { name: "name2", off: 0x0E, width: 12, check: Check::Any },
        FieldDesc { name: "first_cluster_lo", off: 0x1A, width: 2, check: Check::AllZero },
        FieldDesc { name: "name3", off: 0x1C, width: 4, check: Check::Any },
    ]
}

/// Layout of the FAT long-filename entry: 32 bytes, tiled exactly.
pub fn lfn_entry() -> (r: StructDesc)
    ensures
        r.name@ == "FAT long-filename entry"@,
        r.size == 32,
        r.fields@ == lfn_entry_fields(),
        r.tiles(),
{
    let fields: Vec<FieldDesc> = vec![
        FieldDesc { name: "order", off: 0x00, width: 1, check: Check::Any },
        FieldDesc { name: "name1", off: 0x01, width: 10, check: Check::Any },
        FieldDesc { name: "attr", off: 0x0B, width: 1, check: Check::Equal { value: 0x0F } },
        FieldDesc { name: "type", off: 0x0C, width: 1, check: Check::AllZero },
        FieldDesc { name: "checksum", off: 0x0D, width: 1, check: Check::Any },
        FieldDesc { name: "name2", off: 0x0E, width: 12, check: Check::Any },
        FieldDesc { name: "first_cluster_lo", off: 0x1A, width: 2, check: Check::AllZero },
        FieldDesc { name: "name3", off: 0x1C, width: 4, check: Check::Any },
    ];
    assert(fields@ =~= lfn_entry_fields());
    StructDesc { name: "FAT long-filename entry", size: 32, fields }
}

/// The layouts this module defines.
pub open spec fn layouts() -> Seq<DescModel> {
    seq![
        DescModel { name: "FAT BPB"@, size: 36, fields: bpb_fields() },
        DescModel { name: "FAT32 EBPB"@, size: 54, fields: ebpb32_fields() },
        DescModel { name: "FAT12/16 EBPB"@, size: 26, fields: ebpb16_fields() },
        DescModel { name: "FAT32 FSInfo"@, size: 512, fields: fsinfo_fields() },
        DescModel { name: "FAT directory entry"@, size: 32, fields: dir_entry_fields() },
        DescModel { name: "FAT long-filename entry"@, size: 32, fields: lfn_entry_fields() },
    ]
}

/// Every layout this module defines.
pub fn all() -> (r: Vec<StructDesc>)
    ensures
        desc::models(r@) == layouts(),
        desc::all_tile(r@),
{
    let r: Vec<StructDesc> = vec![
        bpb(),
        ebpb32(),
        ebpb16(),
        fsinfo(),
        dir_entry(),
        lfn_entry(),
    ];
    assert(desc::models(r@) =~= layouts());
    r
}

} // verus!
