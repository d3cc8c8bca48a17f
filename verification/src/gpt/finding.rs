//! What reading a GPT can turn up.

use crate::gpt::entry;
use crate::status::Status;
use crate::text;
use crate::text::Text;
use vstd::prelude::*;

verus! {

/// Something worth telling about a GPT.
#[derive(Clone, Copy, Debug, PartialEq, Eq, Structural)]
pub enum Finding {
    HeaderSizeSmall { size: u64 },
    HeaderSizeLarge { size: u64, block: u64 },
    HeaderCrc { stored: u64, computed: u64 },
    WrongLba { my_lba: u64, at_lba: u64 },
    NoAlternate,
    AlternateSelf,
    AlternatePast { alternate: u64, last_lba: u64 },
    AlternateNotLast { last_lba: u64, alternate: u64 },
    UsableInverted { first: u64, last: u64 },
    UsablePast { last: u64, last_lba: u64 },
    DiskGuidZero,
    PaddingInside { size: u64, inside: u64 },
    PaddingDirty,
    EntrySizeSmall { size: u64 },
    EntrySizeOdd { size: u64 },
    EntrySizeLarge { size: u64 },
    NoEntries,
    TooManyEntries { entries: u64 },
    ArrayOverflow,
    ArrayPast { at: u64, device_len: u64 },
    ArrayInUsable { start: u64, end: u64, first: u64, last: u64 },
    CrcOverflow,
    CrcEmpty,
    CrcTooLarge { len: u64 },
    CrcPast { at: u64, len: u64, device_len: u64 },
    EntriesCrc { stored: u64, computed: u64 },
    ArrayUnreadable,
    ArrayUnlocated,
    Survivors { left: u8 },
    NoSectors { first: u64, last: u64 },
    OutsideUsable { first: u64, last: u64, first_usable: u64, last_usable: u64 },
    PastDevice { last: u64, sectors: u64 },
    UniqueGuidZero,
    NameTail,
    Overlap { other: u64, first: u64, last: u64, other_first: u64, other_last: u64 },
    MoreOverlaps { more: u64 },
    BackupPointsElsewhere { alternate: u64, my_lba: u64 },
    PrimaryPointsElsewhere { alternate: u64, my_lba: u64 },
    BackupArrayGap { end: u64, my_lba: u64 },
    ArraysIdentical,
    ArraysDiffer { differing: u64 },
    ArraysNotCompared,
    HeadersAgree,
    PrimaryWhole,
    BackupWhole,
    BothWhole,
    NeitherWhole,
    MbrUnreadable,
    MbrShort,
    MbrUnsigned,
    HybridMbr { entries: u64 },
    NotProtected,
    ManyProtective { entries: u64 },
    ProtectiveFine { sectors: u64 },
    ProtectiveOdd { start: u64, sectors: u64, expected: u64 },
    NeitherSigned { primary: u64, backup: u64 },
    PrimaryMissing { primary: u64, backup: u64 },
    BackupMissing { backup: u64 },
}

/// The findings that hold when `cond` does: one, or none.
pub open spec fn when(cond: bool, f: Finding) -> Seq<Finding> {
    if cond {
        seq![f]
    } else {
        Seq::empty()
    }
}

/// Record `f` when `cond` holds.
pub fn note(out: &mut Vec<Finding>, cond: bool, f: Finding)
    ensures
        final(out)@ == old(out)@ + when(cond, f),
{
    if cond {
        out.push(f);
    }
    assert(out@ =~= old(out)@ + when(cond, f));
}

/// The most serious of a list of findings.
pub open spec fn worst(findings: Seq<Finding>) -> Status
    decreases findings.len(),
{
    if findings.len() == 0 {
        Status::Clean
    } else {
        worst(findings.drop_last()).worse(findings.last().severity())
    }
}

/// The most serious of a list of findings.
pub fn worst_of(findings: &[Finding]) -> (r: Status)
    ensures
        r == worst(findings@),
{
    let mut r = Status::Clean;
    let mut i: usize = 0;
    while i < findings.len()
        invariant
            i <= findings@.len(),
            r == worst(findings@.take(i as int)),
        decreases findings@.len() - i,
    {
        assert(findings@.take(i + 1).drop_last() =~= findings@.take(i as int));
        r = r.merge(findings[i].status());
        i += 1;
    }
    assert(findings@.take(i as int) =~= findings@);
    r
}

impl Finding {
    /// How serious this finding is.
    pub open spec fn severity(self) -> Status {
        match self {
            Finding::HeaderSizeSmall { .. }
            | Finding::HeaderSizeLarge { .. }
            | Finding::HeaderCrc { .. }
            | Finding::WrongLba { .. }
            | Finding::AlternateSelf
            | Finding::AlternatePast { .. }
            | Finding::UsableInverted { .. }
            | Finding::UsablePast { .. }
            | Finding::EntrySizeSmall { .. }
            | Finding::EntrySizeOdd { .. }
            | Finding::EntrySizeLarge { .. }
            | Finding::TooManyEntries { .. }
            | Finding::ArrayOverflow
            | Finding::ArrayPast { .. }
            | Finding::CrcOverflow
            | Finding::CrcPast { .. }
            | Finding::EntriesCrc { .. }
            | Finding::ArrayUnlocated
            | Finding::NoSectors { .. }
            | Finding::PastDevice { .. }
            | Finding::Overlap { .. }
            | Finding::MoreOverlaps { .. }
            | Finding::BackupPointsElsewhere { .. }
            | Finding::PrimaryPointsElsewhere { .. }
            | Finding::ArraysDiffer { .. }
            | Finding::NeitherSigned { .. }
            | Finding::PrimaryMissing { .. } => Status::Bad,
            Finding::NoAlternate
            | Finding::AlternateNotLast { .. }
            | Finding::DiskGuidZero
            | Finding::PaddingDirty
            | Finding::NoEntries
            | Finding::ArrayInUsable { .. }
            | Finding::CrcEmpty
            | Finding::CrcTooLarge { .. }
            | Finding::OutsideUsable { .. }
            | Finding::UniqueGuidZero
            | Finding::BackupArrayGap { .. }
            | Finding::BothWhole
            | Finding::NeitherWhole
            | Finding::MbrShort
            | Finding::MbrUnsigned
            | Finding::HybridMbr { .. }
            | Finding::NotProtected
            | Finding::ManyProtective { .. }
            | Finding::ProtectiveOdd { .. }
            | Finding::BackupMissing { .. } => Status::Warn,
            Finding::PaddingInside { .. }
            | Finding::Survivors { .. }
            | Finding::NameTail
            | Finding::ArraysIdentical
            | Finding::ArraysNotCompared
            | Finding::HeadersAgree
            | Finding::PrimaryWhole
            | Finding::BackupWhole
            | Finding::ProtectiveFine { .. } => Status::Info,
            Finding::ArrayUnreadable
            | Finding::MbrUnreadable => Status::Unreadable,
        }
    }

    /// How serious this finding is.
    pub fn status(&self) -> (r: Status)
        ensures
            r == self.severity(),
    {
        match *self {
            Finding::HeaderSizeSmall { .. }
            | Finding::HeaderSizeLarge { .. }
            | Finding::HeaderCrc { .. }
            | Finding::WrongLba { .. }
            | Finding::AlternateSelf
            | Finding::AlternatePast { .. }
            | Finding::UsableInverted { .. }
            | Finding::UsablePast { .. }
            | Finding::EntrySizeSmall { .. }
            | Finding::EntrySizeOdd { .. }
            | Finding::EntrySizeLarge { .. }
            | Finding::TooManyEntries { .. }
            | Finding::ArrayOverflow
            | Finding::ArrayPast { .. }
            | Finding::CrcOverflow
            | Finding::CrcPast { .. }
            | Finding::EntriesCrc { .. }
            | Finding::ArrayUnlocated
            | Finding::NoSectors { .. }
            | Finding::PastDevice { .. }
            | Finding::Overlap { .. }
            | Finding::MoreOverlaps { .. }
            | Finding::BackupPointsElsewhere { .. }
            | Finding::PrimaryPointsElsewhere { .. }
            | Finding::ArraysDiffer { .. }
            | Finding::NeitherSigned { .. }
            | Finding::PrimaryMissing { .. } => Status::Bad,
            Finding::NoAlternate
            | Finding::AlternateNotLast { .. }
            | Finding::DiskGuidZero
            | Finding::PaddingDirty
            | Finding::NoEntries
            | Finding::ArrayInUsable { .. }
            | Finding::CrcEmpty
            | Finding::CrcTooLarge { .. }
            | Finding::OutsideUsable { .. }
            | Finding::UniqueGuidZero
            | Finding::BackupArrayGap { .. }
            | Finding::BothWhole
            | Finding::NeitherWhole
            | Finding::MbrShort
            | Finding::MbrUnsigned
            | Finding::HybridMbr { .. }
            | Finding::NotProtected
            | Finding::ManyProtective { .. }
            | Finding::ProtectiveOdd { .. }
            | Finding::BackupMissing { .. } => Status::Warn,
            Finding::PaddingInside { .. }
            | Finding::Survivors { .. }
            | Finding::NameTail
            | Finding::ArraysIdentical
            | Finding::ArraysNotCompared
            | Finding::HeadersAgree
            | Finding::PrimaryWhole
            | Finding::BackupWhole
            | Finding::ProtectiveFine { .. } => Status::Info,
            Finding::ArrayUnreadable
            | Finding::MbrUnreadable => Status::Unreadable,
        }
    }

    /// The record field this finding is about, where it is about one.
    pub open spec fn about(self) -> Option<Seq<char>> {
        match self {
            Finding::HeaderSizeSmall { .. }
            | Finding::HeaderSizeLarge { .. } => Some("header_size"@),
            Finding::HeaderCrc { .. } => Some("header_crc32"@),
            Finding::WrongLba { .. } => Some("my_lba"@),
            Finding::NoAlternate
            | Finding::AlternateSelf
            | Finding::AlternatePast { .. }
            | Finding::AlternateNotLast { .. } => Some("alternate_lba"@),
            Finding::UsableInverted { .. } => Some("first_usable_lba"@),
            Finding::UsablePast { .. } => Some("last_usable_lba"@),
            Finding::DiskGuidZero => Some("disk_guid"@),
            Finding::EntrySizeSmall { .. }
            | Finding::EntrySizeOdd { .. }
            | Finding::EntrySizeLarge { .. } => Some("entry_size"@),
            Finding::NoEntries
            | Finding::TooManyEntries { .. } => Some("num_entries"@),
            Finding::ArrayOverflow
            | Finding::ArrayPast { .. }
            | Finding::ArrayInUsable { .. } => Some("entries_lba"@),
            Finding::CrcOverflow
            | Finding::CrcEmpty
            | Finding::CrcTooLarge { .. }
            | Finding::CrcPast { .. }
            | Finding::EntriesCrc { .. }
            | Finding::ArrayUnreadable => Some("entries_crc32"@),
            _ => None,
        }
    }

    /// The record field this finding is about, where it is about one.
    pub fn field(&self) -> (r: Option<&'static str>)
        ensures
            match r {
                Some(s) => self.about() == Some(s@),
                None => self.about() is None,
            },
    {
        match *self {
            Finding::HeaderSizeSmall { .. }
            | Finding::HeaderSizeLarge { .. } => Some("header_size"),
            Finding::HeaderCrc { .. } => Some("header_crc32"),
            Finding::WrongLba { .. } => Some("my_lba"),
            Finding::NoAlternate
            | Finding::AlternateSelf
            | Finding::AlternatePast { .. }
            | Finding::AlternateNotLast { .. } => Some("alternate_lba"),
            Finding::UsableInverted { .. } => Some("first_usable_lba"),
            Finding::UsablePast { .. } => Some("last_usable_lba"),
            Finding::DiskGuidZero => Some("disk_guid"),
            Finding::EntrySizeSmall { .. }
            | Finding::EntrySizeOdd { .. }
            | Finding::EntrySizeLarge { .. } => Some("entry_size"),
            Finding::NoEntries
            | Finding::TooManyEntries { .. } => Some("num_entries"),
            Finding::ArrayOverflow
            | Finding::ArrayPast { .. }
            | Finding::ArrayInUsable { .. } => Some("entries_lba"),
            Finding::CrcOverflow
            | Finding::CrcEmpty
            | Finding::CrcTooLarge { .. }
            | Finding::CrcPast { .. }
            | Finding::EntriesCrc { .. }
            | Finding::ArrayUnreadable => Some("entries_crc32"),
            _ => None,
        }
    }

    /// What was found, in words.
    pub open spec fn text(self) -> Seq<char> {
        match self {
            Finding::HeaderSizeSmall { size } => ""@ + text::dec(size as int) + " is below the 92 bytes UEFI 5.3.2 requires, so header_crc32 covers less than the header"@,
            Finding::HeaderSizeLarge { size, block } => ""@ + text::dec(size as int) + " is larger than the "@ + text::dec(block as int) + "-byte block, so header_crc32 could only be computed over the "@ + text::dec(block as int) + " bytes that exist"@,
            Finding::HeaderCrc { stored, computed } => "stored "@ + text::hex(stored as int, 8) + ", computed "@ + text::hex(computed as int, 8),
            Finding::WrongLba { my_lba, at_lba } => "the header says it lives at LBA "@ + text::dec(my_lba as int) + " but was read from LBA "@ + text::dec(at_lba as int),
            Finding::NoAlternate => "alternate_lba is zero: no second copy is claimed"@,
            Finding::AlternateSelf => "alternate_lba points at this header itself"@,
            Finding::AlternatePast { alternate, last_lba } => "alternate_lba "@ + text::dec(alternate as int) + " is past the device's last LBA "@ + text::dec(last_lba as int),
            Finding::AlternateNotLast { last_lba, alternate } => "the backup header should be at the device's last LBA "@ + text::dec(last_lba as int) + ", not "@ + text::dec(alternate as int),
            Finding::UsableInverted { first, last } => "first_usable_lba "@ + text::dec(first as int) + " is above last_usable_lba "@ + text::dec(last as int) + ", so no partition can be placed anywhere"@,
            Finding::UsablePast { last, last_lba } => "last_usable_lba "@ + text::dec(last as int) + " is past the device's last LBA "@ + text::dec(last_lba as int),
            Finding::DiskGuidZero => "the disk GUID is all zero, so the table identifies no disk"@,
            Finding::PaddingInside { size, inside } => "header_size claims "@ + text::dec(size as int) + " bytes, so the first "@ + text::dec(inside as int) + " bytes here are inside the header and inside its CRC"@,
            Finding::PaddingDirty => "reserved tail of the header block is not zero"@,
            Finding::EntrySizeSmall { size } => ""@ + text::dec(size as int) + " is below the 128 bytes UEFI 5.3.2 requires; entries are shown at a 128-byte stride instead"@,
            Finding::EntrySizeOdd { size } => ""@ + text::dec(size as int) + " is not a multiple of 8"@,
            Finding::EntrySizeLarge { size } => ""@ + text::dec(size as int) + " is larger than a block; entries are shown at a 4096-byte stride instead"@,
            Finding::NoEntries => "the table declares no entries"@,
            Finding::TooManyEntries { entries } => ""@ + text::dec(entries as int) + " entries is past anything a partition table needs; only the first 4096 are shown"@,
            Finding::ArrayOverflow => "entries_lba times the sector size overflows 64 bits"@,
            Finding::ArrayPast { at, device_len } => "the entry array starts at "@ + text::hex_small(at as int, 1) + ", past the end of the "@ + text::dec(device_len as int) + "-byte device"@,
            Finding::ArrayInUsable { start, end, first, last } => "the entry array occupies LBA "@ + text::dec(start as int) + ".."@ + text::dec(end as int) + ", inside the usable range "@ + text::dec(first as int) + ".."@ + text::dec(last as int),
            Finding::CrcOverflow => "num_entries times entry_size overflows 64 bits, so entries_crc32 covers no range that can be checked"@,
            Finding::CrcEmpty => "the declared entry array is zero bytes long, so entries_crc32 cannot be checked against anything"@,
            Finding::CrcTooLarge { len } => "the array claims "@ + text::dec(len as int) + " bytes; this reader will not read more than 4194304 to check a checksum, so entries_crc32 is unverified"@,
            Finding::CrcPast { at, len, device_len } => "the array runs from "@ + text::hex_small(at as int, 1) + " for "@ + text::dec(len as int) + " bytes, past the end of the "@ + text::dec(device_len as int) + "-byte device; entries_crc32 is unverified"@,
            Finding::EntriesCrc { stored, computed } => "stored "@ + text::hex(stored as int, 8) + ", computed "@ + text::hex(computed as int, 8),
            Finding::ArrayUnreadable => "the entry array could not be read, so entries_crc32 is unverified"@,
            Finding::ArrayUnlocated => "the entry array's location could not be resolved, so no entries are shown"@,
            Finding::Survivors { left } => "slot is unused but "@ + entry::survivors_name(left)@ + " survive"@,
            Finding::NoSectors { first, last } => "first_lba "@ + text::dec(first as int) + " is above last_lba "@ + text::dec(last as int) + ", so the partition has no sectors"@,
            Finding::OutsideUsable { first, last, first_usable, last_usable } => "LBA "@ + text::dec(first as int) + ".."@ + text::dec(last as int) + " is outside the usable range "@ + text::dec(first_usable as int) + ".."@ + text::dec(last_usable as int) + " the header declares"@,
            Finding::PastDevice { last, sectors } => "ends at LBA "@ + text::dec(last as int) + " but the device has only "@ + text::dec(sectors as int) + " sectors"@,
            Finding::UniqueGuidZero => "the partition's unique GUID is all zero, so nothing identifies it"@,
            Finding::NameTail => "bytes after the end of the name are not zero"@,
            Finding::Overlap { other, first, last, other_first, other_last } => "overlaps entry "@ + text::dec(other as int) + ": "@ + text::dec(first as int) + ".."@ + text::dec(last as int) + " against "@ + text::dec(other_first as int) + ".."@ + text::dec(other_last as int),
            Finding::MoreOverlaps { more } => "and "@ + text::dec(more as int) + " further entries overlap this one, not listed individually"@,
            Finding::BackupPointsElsewhere { alternate, my_lba } => "the backup's alternate_lba is "@ + text::dec(alternate as int) + " but the primary lives at LBA "@ + text::dec(my_lba as int),
            Finding::PrimaryPointsElsewhere { alternate, my_lba } => "the primary's alternate_lba is "@ + text::dec(alternate as int) + " but the backup was found at LBA "@ + text::dec(my_lba as int),
            Finding::BackupArrayGap { end, my_lba } => "the backup entry array runs to LBA "@ + text::dec(end as int) + " but the backup header is at LBA "@ + text::dec(my_lba as int) + "; the array should end where the header starts"@,
            Finding::ArraysIdentical => "the two entry arrays are byte-identical over the range each header declares"@,
            Finding::ArraysDiffer { differing } => "the two entry arrays differ in "@ + text::dec(differing as int) + " bytes"@,
            Finding::ArraysNotCompared => "one of the entry arrays could not be read in full, so the two were not compared"@,
            Finding::HeadersAgree => "the two headers agree on every field that must match"@,
            Finding::PrimaryWhole => "the primary passes its own CRC and the backup does not, so the primary is the copy that was written whole"@,
            Finding::BackupWhole => "the backup passes its own CRC and the primary does not, so the backup is the copy that was written whole"@,
            Finding::BothWhole => "both headers pass their own CRC, so both were written deliberately — the disagreement is between two tools, not corruption"@,
            Finding::NeitherWhole => "neither header passes its own CRC, so neither copy can be trusted on its own"@,
            Finding::MbrUnreadable => "LBA 0 could not be read, so whether a protective MBR is present is unknown"@,
            Finding::MbrShort => "LBA 0 is shorter than 512 bytes, so there is no MBR there"@,
            Finding::MbrUnsigned => "no protective MBR: LBA 0 has no 55 AA signature"@,
            Finding::HybridMbr { entries } => "hybrid MBR: a 0xEE entry alongside "@ + text::dec(entries as int) + " real MBR entries"@,
            Finding::NotProtected => "LBA 0 holds an MBR with no 0xEE entry, so this GPT is not protected"@,
            Finding::ManyProtective { entries } => ""@ + text::dec(entries as int) + " separate 0xEE entries in the MBR"@,
            Finding::ProtectiveFine { sectors } => "protective MBR is well formed: one 0xEE entry covering "@ + text::dec(sectors as int) + " sectors from LBA 1"@,
            Finding::ProtectiveOdd { start, sectors, expected } => "the 0xEE entry starts at LBA "@ + text::dec(start as int) + " and covers "@ + text::dec(sectors as int) + " sectors; a protective MBR should start at LBA 1 and cover "@ + text::dec(expected as int),
            Finding::NeitherSigned { primary, backup } => "neither LBA "@ + text::dec(primary as int) + " nor LBA "@ + text::dec(backup as int) + " carries the EFI PART signature"@,
            Finding::PrimaryMissing { primary, backup } => "the primary header at LBA "@ + text::dec(primary as int) + " has no signature, but the backup at LBA "@ + text::dec(backup as int) + " is intact"@,
            Finding::BackupMissing { backup } => "the backup header at LBA "@ + text::dec(backup as int) + " has no signature; only the primary copy survives"@,
        }
    }

    /// What was found, in words.
    pub fn message(&self) -> (r: String)
        ensures
            r@ == self.text(),
    {
        match *self {
            Finding::HeaderSizeSmall { size } => Text::of("").dec(size).lit(" is below the 92 bytes UEFI 5.3.2 requires, so header_crc32 covers less than the header").done(),
            Finding::HeaderSizeLarge { size, block } => Text::of("").dec(size).lit(" is larger than the ").dec(block).lit("-byte block, so header_crc32 could only be computed over the ").dec(block).lit(" bytes that exist").done(),
            Finding::HeaderCrc { stored, computed } => Text::of("stored ").hex(stored, 8).lit(", computed ").hex(computed, 8).done(),
            Finding::WrongLba { my_lba, at_lba } => Text::of("the header says it lives at LBA ").dec(my_lba).lit(" but was read from LBA ").dec(at_lba).done(),
            Finding::NoAlternate => Text::of("alternate_lba is zero: no second copy is claimed").done(),
            Finding::AlternateSelf => Text::of("alternate_lba points at this header itself").done(),
            Finding::AlternatePast { alternate, last_lba } => Text::of("alternate_lba ").dec(alternate).lit(" is past the device's last LBA ").dec(last_lba).done(),
            Finding::AlternateNotLast { last_lba, alternate } => Text::of("the backup header should be at the device's last LBA ").dec(last_lba).lit(", not ").dec(alternate).done(),
            Finding::UsableInverted { first, last } => Text::of("first_usable_lba ").dec(first).lit(" is above last_usable_lba ").dec(last).lit(", so no partition can be placed anywhere").done(),
            Finding::UsablePast { last, last_lba } => Text::of("last_usable_lba ").dec(last).lit(" is past the device's last LBA ").dec(last_lba).done(),
            Finding::DiskGuidZero => Text::of("the disk GUID is all zero, so the table identifies no disk").done(),
            Finding::PaddingInside { size, inside } => Text::of("header_size claims ").dec(size).lit(" bytes, so the first ").dec(inside).lit(" bytes here are inside the header and inside its CRC").done(),
            Finding::PaddingDirty => Text::of("reserved tail of the header block is not zero").done(),
            Finding::EntrySizeSmall { size } => Text::of("").dec(size).lit(" is below the 128 bytes UEFI 5.3.2 requires; entries are shown at a 128-byte stride instead").done(),
            Finding::EntrySizeOdd { size } => Text::of("").dec(size).lit(" is not a multiple of 8").done(),
            Finding::EntrySizeLarge { size } => Text::of("").dec(size).lit(" is larger than a block; entries are shown at a 4096-byte stride instead").done(),
            Finding::NoEntries => Text::of("the table declares no entries").done(),
            Finding::TooManyEntries { entries } => Text::of("").dec(entries).lit(" entries is past anything a partition table needs; only the first 4096 are shown").done(),
            Finding::ArrayOverflow => Text::of("entries_lba times the sector size overflows 64 bits").done(),
            Finding::ArrayPast { at, device_len } => Text::of("the entry array starts at ").hex_small(at, 1).lit(", past the end of the ").dec(device_len).lit("-byte device").done(),
            Finding::ArrayInUsable { start, end, first, last } => Text::of("the entry array occupies LBA ").dec(start).lit("..").dec(end).lit(", inside the usable range ").dec(first).lit("..").dec(last).done(),
            Finding::CrcOverflow => Text::of("num_entries times entry_size overflows 64 bits, so entries_crc32 covers no range that can be checked").done(),
            Finding::CrcEmpty => Text::of("the declared entry array is zero bytes long, so entries_crc32 cannot be checked against anything").done(),
            Finding::CrcTooLarge { len } => Text::of("the array claims ").dec(len).lit(" bytes; this reader will not read more than 4194304 to check a checksum, so entries_crc32 is unverified").done(),
            Finding::CrcPast { at, len, device_len } => Text::of("the array runs from ").hex_small(at, 1).lit(" for ").dec(len).lit(" bytes, past the end of the ").dec(device_len).lit("-byte device; entries_crc32 is unverified").done(),
            Finding::EntriesCrc { stored, computed } => Text::of("stored ").hex(stored, 8).lit(", computed ").hex(computed, 8).done(),
            Finding::ArrayUnreadable => Text::of("the entry array could not be read, so entries_crc32 is unverified").done(),
            Finding::ArrayUnlocated => Text::of("the entry array's location could not be resolved, so no entries are shown").done(),
            Finding::Survivors { left } => Text::of("slot is unused but ").lit(entry::survivors_label(left)).lit(" survive").done(),
            Finding::NoSectors { first, last } => Text::of("first_lba ").dec(first).lit(" is above last_lba ").dec(last).lit(", so the partition has no sectors").done(),
            Finding::OutsideUsable { first, last, first_usable, last_usable } => Text::of("LBA ").dec(first).lit("..").dec(last).lit(" is outside the usable range ").dec(first_usable).lit("..").dec(last_usable).lit(" the header declares").done(),
            Finding::PastDevice { last, sectors } => Text::of("ends at LBA ").dec(last).lit(" but the device has only ").dec(sectors).lit(" sectors").done(),
            Finding::UniqueGuidZero => Text::of("the partition's unique GUID is all zero, so nothing identifies it").done(),
            Finding::NameTail => Text::of("bytes after the end of the name are not zero").done(),
            Finding::Overlap { other, first, last, other_first, other_last } => Text::of("overlaps entry ").dec(other).lit(": ").dec(first).lit("..").dec(last).lit(" against ").dec(other_first).lit("..").dec(other_last).done(),
            Finding::MoreOverlaps { more } => Text::of("and ").dec(more).lit(" further entries overlap this one, not listed individually").done(),
            Finding::BackupPointsElsewhere { alternate, my_lba } => Text::of("the backup's alternate_lba is ").dec(alternate).lit(" but the primary lives at LBA ").dec(my_lba).done(),
            Finding::PrimaryPointsElsewhere { alternate, my_lba } => Text::of("the primary's alternate_lba is ").dec(alternate).lit(" but the backup was found at LBA ").dec(my_lba).done(),
            Finding::BackupArrayGap { end, my_lba } => Text::of("the backup entry array runs to LBA ").dec(end).lit(" but the backup header is at LBA ").dec(my_lba).lit("; the array should end where the header starts").done(),
            Finding::ArraysIdentical => Text::of("the two entry arrays are byte-identical over the range each header declares").done(),
            Finding::ArraysDiffer { differing } => Text::of("the two entry arrays differ in ").dec(differing).lit(" bytes").done(),
            Finding::ArraysNotCompared => Text::of("one of the entry arrays could not be read in full, so the two were not compared").done(),
            Finding::HeadersAgree => Text::of("the two headers agree on every field that must match").done(),
            Finding::PrimaryWhole => Text::of("the primary passes its own CRC and the backup does not, so the primary is the copy that was written whole").done(),
            Finding::BackupWhole => Text::of("the backup passes its own CRC and the primary does not, so the backup is the copy that was written whole").done(),
            Finding::BothWhole => Text::of("both headers pass their own CRC, so both were written deliberately — the disagreement is between two tools, not corruption").done(),
            Finding::NeitherWhole => Text::of("neither header passes its own CRC, so neither copy can be trusted on its own").done(),
            Finding::MbrUnreadable => Text::of("LBA 0 could not be read, so whether a protective MBR is present is unknown").done(),
            Finding::MbrShort => Text::of("LBA 0 is shorter than 512 bytes, so there is no MBR there").done(),
            Finding::MbrUnsigned => Text::of("no protective MBR: LBA 0 has no 55 AA signature").done(),
            Finding::HybridMbr { entries } => Text::of("hybrid MBR: a 0xEE entry alongside ").dec(entries).lit(" real MBR entries").done(),
            Finding::NotProtected => Text::of("LBA 0 holds an MBR with no 0xEE entry, so this GPT is not protected").done(),
            Finding::ManyProtective { entries } => Text::of("").dec(entries).lit(" separate 0xEE entries in the MBR").done(),
            Finding::ProtectiveFine { sectors } => Text::of("protective MBR is well formed: one 0xEE entry covering ").dec(sectors).lit(" sectors from LBA 1").done(),
            Finding::ProtectiveOdd { start, sectors, expected } => Text::of("the 0xEE entry starts at LBA ").dec(start).lit(" and covers ").dec(sectors).lit(" sectors; a protective MBR should start at LBA 1 and cover ").dec(expected).done(),
            Finding::NeitherSigned { primary, backup } => Text::of("neither LBA ").dec(primary).lit(" nor LBA ").dec(backup).lit(" carries the EFI PART signature").done(),
            Finding::PrimaryMissing { primary, backup } => Text::of("the primary header at LBA ").dec(primary).lit(" has no signature, but the backup at LBA ").dec(backup).lit(" is intact").done(),
            Finding::BackupMissing { backup } => Text::of("the backup header at LBA ").dec(backup).lit(" has no signature; only the primary copy survives").done(),
        }
    }

    /// What it means for the reader, where there is something to add.
    pub open spec fn advice(self) -> Option<Seq<char>> {
        match self {
            Finding::HeaderSizeSmall { .. } => Some("a header this short cannot reach entries_lba or the entry counts"@),
            Finding::WrongLba { .. } => Some("a table copied from another disk, or written to the wrong sector"@),
            Finding::AlternatePast { .. } => Some("the image or device is smaller than the disk this table was written for"@),
            Finding::UsablePast { .. } => Some("a partition ending up there would run off the end of the device"@),
            Finding::PaddingDirty => Some("residue from whatever occupied this block before the GPT was written, or an extension nobody documented"@),
            Finding::TooManyEntries { .. } => Some("a 32-bit count read from the disk is an allocation request from an untrusted source, so it is clamped before it is multiplied"@),
            Finding::ArrayInUsable { .. } => Some("a partition placed there would overwrite the table that describes it"@),
            Finding::CrcTooLarge { .. } => Some("the stored value is shown as-is, not compared"@),
            Finding::EntriesCrc { .. } => Some("an entry was changed without updating the array checksum, which is what an editor that does not know about GPT leaves behind"@),
            Finding::ArrayUnreadable => Some("the device returned an error; this is not zeroed data"@),
            Finding::Survivors { .. } => Some("clearing the type GUID is all most tools do to delete a partition; the name and unique GUID still say what was here"@),
            Finding::NoSectors { .. } => Some("last_lba is inclusive, not a length and not an exclusive end"@),
            Finding::PastDevice { .. } => Some("either the table is from a larger disk or the sector size is wrong"@),
            Finding::NameTail => Some("a longer name overwritten by a shorter one leaves its tail in place"@),
            Finding::MoreOverlaps { .. } => Some("a table where everything overlaps everything is one finding about the table, not one per pair"@),
            Finding::BackupPointsElsewhere { .. } => Some("the two copies were written by different tools, or at different times"@),
            Finding::ArraysDiffer { .. } => Some("one copy describes the disk as it is and the other as it was; compare the entries before trusting either"@),
            Finding::MbrUnsigned => Some("legacy tools will read this disk as unpartitioned, and some will offer to initialise it"@),
            Finding::HybridMbr { .. } => Some("the MBR and the GPT describe the same disk differently; which one a tool believes is up to the tool"@),
            Finding::NotProtected => Some("a tool that reads only the MBR will not see the GPT's partitions"@),
            Finding::ProtectiveOdd { .. } => Some("a disk that was resized, or a table copied from a different disk"@),
            Finding::NeitherSigned { .. } => Some("every field below was read anyway; nothing here has been refused"@),
            Finding::PrimaryMissing { .. } => Some("the table can be rebuilt from the backup; read it before writing anything"@),
            Finding::BackupMissing { .. } => Some("common on an image that was truncated, or a disk that was grown without moving the backup"@),
            _ => None,
        }
    }

    /// What it means for the reader, where there is something to add.
    pub fn hint(&self) -> (r: Option<String>)
        ensures
            match r {
                Some(s) => self.advice() == Some(s@),
                None => self.advice() is None,
            },
    {
        match *self {
            Finding::HeaderSizeSmall { .. } => Some(Text::of("a header this short cannot reach entries_lba or the entry counts").done()),
            Finding::WrongLba { .. } => Some(Text::of("a table copied from another disk, or written to the wrong sector").done()),
            Finding::AlternatePast { .. } => Some(Text::of("the image or device is smaller than the disk this table was written for").done()),
            Finding::UsablePast { .. } => Some(Text::of("a partition ending up there would run off the end of the device").done()),
            Finding::PaddingDirty => Some(Text::of("residue from whatever occupied this block before the GPT was written, or an extension nobody documented").done()),
            Finding::TooManyEntries { .. } => Some(Text::of("a 32-bit count read from the disk is an allocation request from an untrusted source, so it is clamped before it is multiplied").done()),
            Finding::ArrayInUsable { .. } => Some(Text::of("a partition placed there would overwrite the table that describes it").done()),
            Finding::CrcTooLarge { .. } => Some(Text::of("the stored value is shown as-is, not compared").done()),
            Finding::EntriesCrc { .. } => Some(Text::of("an entry was changed without updating the array checksum, which is what an editor that does not know about GPT leaves behind").done()),
            Finding::ArrayUnreadable => Some(Text::of("the device returned an error; this is not zeroed data").done()),
            Finding::Survivors { .. } => Some(Text::of("clearing the type GUID is all most tools do to delete a partition; the name and unique GUID still say what was here").done()),
            Finding::NoSectors { .. } => Some(Text::of("last_lba is inclusive, not a length and not an exclusive end").done()),
            Finding::PastDevice { .. } => Some(Text::of("either the table is from a larger disk or the sector size is wrong").done()),
            Finding::NameTail => Some(Text::of("a longer name overwritten by a shorter one leaves its tail in place").done()),
            Finding::MoreOverlaps { .. } => Some(Text::of("a table where everything overlaps everything is one finding about the table, not one per pair").done()),
            Finding::BackupPointsElsewhere { .. } => Some(Text::of("the two copies were written by different tools, or at different times").done()),
            Finding::ArraysDiffer { .. } => Some(Text::of("one copy describes the disk as it is and the other as it was; compare the entries before trusting either").done()),
            Finding::MbrUnsigned => Some(Text::of("legacy tools will read this disk as unpartitioned, and some will offer to initialise it").done()),
            Finding::HybridMbr { .. } => Some(Text::of("the MBR and the GPT describe the same disk differently; which one a tool believes is up to the tool").done()),
            Finding::NotProtected => Some(Text::of("a tool that reads only the MBR will not see the GPT's partitions").done()),
            Finding::ProtectiveOdd { .. } => Some(Text::of("a disk that was resized, or a table copied from a different disk").done()),
            Finding::NeitherSigned { .. } => Some(Text::of("every field below was read anyway; nothing here has been refused").done()),
            Finding::PrimaryMissing { .. } => Some(Text::of("the table can be rebuilt from the backup; read it before writing anything").done()),
            Finding::BackupMissing { .. } => Some(Text::of("common on an image that was truncated, or a disk that was grown without moving the backup").done()),
            _ => None,
        }
    }

}

} // verus!
