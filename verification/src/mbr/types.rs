//! MBR partition type bytes and status values.
//!
//! There is no authority for the type bytes. They are convention, accreted since 1983
//! and contradictory in places: the same byte means different things to different
//! operating systems. Unknown bytes always still show as a number; the table only
//! ever adds a name.

use vstd::prelude::*;

verus! {

/// A value that has a name.
#[derive(Clone, Copy, Debug)]
pub struct Named {
    pub value: u64,
    pub label: &'static str,
    pub doc: &'static str,
}

/// The name of a status value.
pub open spec fn status_named(value: u64) -> Option<Named> {
    match value {
        0x00 => Some(Named { value, label: "inactive", doc: "not bootable" }),
        0x80 => Some(Named { value, label: "active", doc: "bootable; the conventional boot flag" }),
        _ => None,
    }
}

/// Look up a status value.
pub fn lookup_status(value: u64) -> (r: Option<Named>)
    ensures
        r == status_named(value),
{
    match value {
        0x00 => Some(Named { value, label: "inactive", doc: "not bootable" }),
        0x80 => Some(Named { value, label: "active", doc: "bootable; the conventional boot flag" }),
        _ => None,
    }
}

/// The name of a type byte.
pub open spec fn type_named(value: u64) -> Option<Named> {
    match value {
        0x00 => Some(Named { value, label: "empty", doc: "unused slot; the rest of the entry should be zero" }),
        0x01 => Some(Named { value, label: "FAT12", doc: "FAT12, CHS addressing" }),
        0x04 => Some(Named { value, label: "FAT16 <32M", doc: "FAT16 with fewer than 65536 sectors, CHS" }),
        0x05 => Some(Named { value, label: "extended CHS", doc: "extended partition, CHS addressing" }),
        0x06 => Some(Named { value, label: "FAT16", doc: "FAT16B, CHS addressing" }),
        0x07 => Some(Named { value, label: "NTFS / exFAT / HPFS", doc: "ambiguous: NTFS, exFAT, HPFS or QNX" }),
        0x0B => Some(Named { value, label: "FAT32 CHS", doc: "FAT32 with CHS addressing" }),
        0x0C => Some(Named { value, label: "FAT32 LBA", doc: "FAT32 with LBA addressing; the usual modern value" }),
        0x0E => Some(Named { value, label: "FAT16 LBA", doc: "FAT16B with LBA addressing" }),
        0x0F => Some(Named { value, label: "extended LBA", doc: "extended partition, LBA addressing" }),
        0x11 => Some(Named { value, label: "hidden FAT12", doc: "FAT12, hidden from DOS" }),
        0x12 => Some(Named { value, label: "OEM / diagnostics", doc: "vendor recovery or diagnostic partition" }),
        0x14 => Some(Named { value, label: "hidden FAT16 <32M", doc: "hidden FAT16, CHS" }),
        0x16 => Some(Named { value, label: "hidden FAT16", doc: "hidden FAT16B" }),
        0x17 => Some(Named { value, label: "hidden NTFS/exFAT", doc: "hidden NTFS, exFAT or HPFS" }),
        0x1B => Some(Named { value, label: "hidden FAT32", doc: "hidden FAT32, CHS" }),
        0x1C => Some(Named { value, label: "hidden FAT32 LBA", doc: "hidden FAT32, LBA" }),
        0x1E => Some(Named { value, label: "hidden FAT16 LBA", doc: "hidden FAT16B, LBA" }),
        0x27 => Some(Named { value, label: "Windows RE", doc: "Windows recovery environment" }),
        0x39 => Some(Named { value, label: "Plan 9", doc: "Plan 9 from Bell Labs" }),
        0x3C => Some(Named { value, label: "PartitionMagic", doc: "PartitionMagic recovery" }),
        0x42 => Some(Named { value, label: "Windows LDM", doc: "Windows dynamic disk / logical disk manager" }),
        0x63 => Some(Named { value, label: "GNU HURD / SysV", doc: "HURD, or a System V variant" }),
        0x80 => Some(Named { value, label: "Minix", doc: "old Minix" }),
        0x81 => Some(Named { value, label: "Minix / old Linux", doc: "Minix 1.4b+, or pre-1.0 Linux" }),
        0x82 => Some(Named { value, label: "Linux swap", doc: "Linux swap, or Solaris x86" }),
        0x83 => Some(Named { value, label: "Linux", doc: "any Linux filesystem: ext2/3/4, XFS, btrfs, F2FS" }),
        0x84 => Some(Named { value, label: "hibernation", doc: "OS/2 hidden C:, or Intel hibernation" }),
        0x85 => Some(Named { value, label: "Linux extended", doc: "Linux extended partition" }),
        0x86 => Some(Named { value, label: "NTFS volume set", doc: "legacy NTFS volume set" }),
        0x87 => Some(Named { value, label: "NTFS volume set", doc: "legacy NTFS volume set" }),
        0x88 => Some(Named { value, label: "Linux plaintext", doc: "Linux plaintext partition table" }),
        0x8E => Some(Named { value, label: "Linux LVM", doc: "Linux logical volume manager" }),
        0xA0 => Some(Named { value, label: "laptop hibernation", doc: "vendor hibernation partition" }),
        0xA5 => Some(Named { value, label: "FreeBSD", doc: "FreeBSD slice" }),
        0xA6 => Some(Named { value, label: "OpenBSD", doc: "OpenBSD slice" }),
        0xA8 => Some(Named { value, label: "Apple UFS", doc: "Apple UFS" }),
        0xA9 => Some(Named { value, label: "NetBSD", doc: "NetBSD slice" }),
        0xAB => Some(Named { value, label: "Apple boot", doc: "Apple boot partition" }),
        0xAF => Some(Named { value, label: "Apple HFS/HFS+", doc: "Apple HFS or HFS+" }),
        0xB7 => Some(Named { value, label: "BSDI", doc: "BSDI filesystem" }),
        0xBE => Some(Named { value, label: "Solaris boot", doc: "Solaris 8 boot partition" }),
        0xBF => Some(Named { value, label: "Solaris", doc: "Solaris x86" }),
        0xEB => Some(Named { value, label: "BeOS BFS", doc: "BeOS / Haiku BFS" }),
        0xEE => Some(Named { value, label: "GPT protective", doc: "the whole disk is GPT; this MBR is a decoy" }),
        0xEF => Some(Named { value, label: "EFI System (MBR)", doc: "EFI System Partition declared in an MBR" }),
        0xF2 => Some(Named { value, label: "DOS secondary", doc: "DOS 3.3+ secondary partition" }),
        0xFB => Some(Named { value, label: "VMware VMFS", doc: "VMware filesystem" }),
        0xFC => Some(Named { value, label: "VMware swap", doc: "VMware swap" }),
        0xFD => Some(Named { value, label: "Linux RAID", doc: "Linux RAID autodetect" }),
        0xFE => Some(Named { value, label: "LANstep / IBM", doc: "LANstep, or IBM IML" }),
        0xFF => Some(Named { value, label: "XENIX bad block", doc: "XENIX bad block table" }),
        _ => None,
    }
}

/// Look up a type byte.
pub fn lookup_type(value: u64) -> (r: Option<Named>)
    ensures
        r == type_named(value),
        r matches Some(n) ==> n.value == value && value <= 0xFF,
{
    match value {
        0x00 => Some(Named { value, label: "empty", doc: "unused slot; the rest of the entry should be zero" }),
        0x01 => Some(Named { value, label: "FAT12", doc: "FAT12, CHS addressing" }),
        0x04 => Some(Named { value, label: "FAT16 <32M", doc: "FAT16 with fewer than 65536 sectors, CHS" }),
        0x05 => Some(Named { value, label: "extended CHS", doc: "extended partition, CHS addressing" }),
        0x06 => Some(Named { value, label: "FAT16", doc: "FAT16B, CHS addressing" }),
        0x07 => Some(Named { value, label: "NTFS / exFAT / HPFS", doc: "ambiguous: NTFS, exFAT, HPFS or QNX" }),
        0x0B => Some(Named { value, label: "FAT32 CHS", doc: "FAT32 with CHS addressing" }),
        0x0C => Some(Named { value, label: "FAT32 LBA", doc: "FAT32 with LBA addressing; the usual modern value" }),
        0x0E => Some(Named { value, label: "FAT16 LBA", doc: "FAT16B with LBA addressing" }),
        0x0F => Some(Named { value, label: "extended LBA", doc: "extended partition, LBA addressing" }),
        0x11 => Some(Named { value, label: "hidden FAT12", doc: "FAT12, hidden from DOS" }),
        0x12 => Some(Named { value, label: "OEM / diagnostics", doc: "vendor recovery or diagnostic partition" }),
        0x14 => Some(Named { value, label: "hidden FAT16 <32M", doc: "hidden FAT16, CHS" }),
        0x16 => Some(Named { value, label: "hidden FAT16", doc: "hidden FAT16B" }),
        0x17 => Some(Named { value, label: "hidden NTFS/exFAT", doc: "hidden NTFS, exFAT or HPFS" }),
        0x1B => Some(Named { value, label: "hidden FAT32", doc: "hidden FAT32, CHS" }),
        0x1C => Some(Named { value, label: "hidden FAT32 LBA", doc: "hidden FAT32, LBA" }),
        0x1E => Some(Named { value, label: "hidden FAT16 LBA", doc: "hidden FAT16B, LBA" }),
        0x27 => Some(Named { value, label: "Windows RE", doc: "Windows recovery environment" }),
        0x39 => Some(Named { value, label: "Plan 9", doc: "Plan 9 from Bell Labs" }),
        0x3C => Some(Named { value, label: "PartitionMagic", doc: "PartitionMagic recovery" }),
        0x42 => Some(Named { value, label: "Windows LDM", doc: "Windows dynamic disk / logical disk manager" }),
        0x63 => Some(Named { value, label: "GNU HURD / SysV", doc: "HURD, or a System V variant" }),
        0x80 => Some(Named { value, label: "Minix", doc: "old Minix" }),
        0x81 => Some(Named { value, label: "Minix / old Linux", doc: "Minix 1.4b+, or pre-1.0 Linux" }),
        0x82 => Some(Named { value, label: "Linux swap", doc: "Linux swap, or Solaris x86" }),
        0x83 => Some(Named { value, label: "Linux", doc: "any Linux filesystem: ext2/3/4, XFS, btrfs, F2FS" }),
        0x84 => Some(Named { value, label: "hibernation", doc: "OS/2 hidden C:, or Intel hibernation" }),
        0x85 => Some(Named { value, label: "Linux extended", doc: "Linux extended partition" }),
        0x86 => Some(Named { value, label: "NTFS volume set", doc: "legacy NTFS volume set" }),
        0x87 => Some(Named { value, label: "NTFS volume set", doc: "legacy NTFS volume set" }),
        0x88 => Some(Named { value, label: "Linux plaintext", doc: "Linux plaintext partition table" }),
        0x8E => Some(Named { value, label: "Linux LVM", doc: "Linux logical volume manager" }),
        0xA0 => Some(Named { value, label: "laptop hibernation", doc: "vendor hibernation partition" }),
        0xA5 => Some(Named { value, label: "FreeBSD", doc: "FreeBSD slice" }),
        0xA6 => Some(Named { value, label: "OpenBSD", doc: "OpenBSD slice" }),
        0xA8 => Some(Named { value, label: "Apple UFS", doc: "Apple UFS" }),
        0xA9 => Some(Named { value, label: "NetBSD", doc: "NetBSD slice" }),
        0xAB => Some(Named { value, label: "Apple boot", doc: "Apple boot partition" }),
        0xAF => Some(Named { value, label: "Apple HFS/HFS+", doc: "Apple HFS or HFS+" }),
        0xB7 => Some(Named { value, label: "BSDI", doc: "BSDI filesystem" }),
        0xBE => Some(Named { value, label: "Solaris boot", doc: "Solaris 8 boot partition" }),
        0xBF => Some(Named { value, label: "Solaris", doc: "Solaris x86" }),
        0xEB => Some(Named { value, label: "BeOS BFS", doc: "BeOS / Haiku BFS" }),
        0xEE => Some(Named { value, label: "GPT protective", doc: "the whole disk is GPT; this MBR is a decoy" }),
        0xEF => Some(Named { value, label: "EFI System (MBR)", doc: "EFI System Partition declared in an MBR" }),
        0xF2 => Some(Named { value, label: "DOS secondary", doc: "DOS 3.3+ secondary partition" }),
        0xFB => Some(Named { value, label: "VMware VMFS", doc: "VMware filesystem" }),
        0xFC => Some(Named { value, label: "VMware swap", doc: "VMware swap" }),
        0xFD => Some(Named { value, label: "Linux RAID", doc: "Linux RAID autodetect" }),
        0xFE => Some(Named { value, label: "LANstep / IBM", doc: "LANstep, or IBM IML" }),
        0xFF => Some(Named { value, label: "XENIX bad block", doc: "XENIX bad block table" }),
        _ => None,
    }
}

/// Every type byte that has a name, each exactly once and in ascending order.
pub fn mbr_types() -> (r: Vec<Named>)
    ensures
        forall|i: int, j: int| 0 <= i < j < r@.len() ==> (#[trigger] r@[i]).value < (#[trigger] r@[j]).value,
        forall|i: int|
            0 <= i < r@.len() ==> type_named((#[trigger] r@[i]).value) == Some(r@[i]),
        forall|v: u64|
            v <= 0xFF && #[trigger] type_named(v) is Some ==> exists|i: int|
                0 <= i < r@.len() && (#[trigger] r@[i]).value == v,
{
    let mut r: Vec<Named> = Vec::new();
    let mut v: u64 = 0;
    while v <= 0xFF
        invariant
            v <= 0x100,
            forall|i: int, j: int|
                0 <= i < j < r@.len() ==> (#[trigger] r@[i]).value < (#[trigger] r@[j]).value,
            forall|i: int|
                0 <= i < r@.len() ==> (#[trigger] r@[i]).value < v && type_named(r@[i].value)
                    == Some(r@[i]),
            forall|w: u64|
                w < v && #[trigger] type_named(w) is Some ==> exists|i: int|
                    0 <= i < r@.len() && (#[trigger] r@[i]).value == w,
        decreases 0x100 - v,
    {
        let ghost before = r@;
        if let Some(n) = lookup_type(v) {
            r.push(n);
            assert(r@[before.len() as int].value == v);
        }
        assert forall|w: u64| w < v + 1 && #[trigger] type_named(w) is Some implies exists|i: int|
            0 <= i < r@.len() && (#[trigger] r@[i]).value == w by {
            if w < v {
                let i = choose|i: int| 0 <= i < before.len() && (#[trigger] before[i]).value == w;
                assert(r@[i].value == w);
            }
        }
        v += 1;
    }
    r
}

/// The type bytes whose entry points at a chain of extended boot records rather than
/// at a file system.
pub open spec fn extended(type_byte: u64) -> bool {
    type_byte == 0x05 || type_byte == 0x0F || type_byte == 0x85
}

/// True for a type byte whose entry points at a chain of extended boot records.
pub fn is_extended(type_byte: u64) -> (r: bool)
    ensures
        r == extended(type_byte),
{
    type_byte == 0x05 || type_byte == 0x0F || type_byte == 0x85
}

/// The protective entry a GPT disk puts in its MBR.
pub const TYPE_GPT_PROTECTIVE: u64 = 0xEE;

/// The name of a type byte, or that it has none.
pub open spec fn type_text(t: u64) -> Seq<char> {
    match type_named(t) {
        Some(n) => n.label@,
        None => "unknown"@,
    }
}

/// The name of a type byte, or that it has none.
pub fn type_label(t: u64) -> (r: &'static str)
    ensures
        r@ == type_text(t),
{
    match lookup_type(t) {
        Some(n) => n.label,
        None => "unknown",
    }
}

} // verus!
