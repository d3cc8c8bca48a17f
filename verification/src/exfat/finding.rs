//! What reading an exFAT volume can find.

use crate::exfat::types;
use crate::status::Status;
use crate::text;
use crate::text::Text;
use vstd::prelude::*;

verus! {

/// Something worth saying about an exFAT volume.
#[derive(Clone, Copy, Debug, PartialEq, Eq, Structural)]
pub enum Finding {
    SectorShift { shift: u8, fallback: u32 },
    ClusterShift { shift: u8 },
    ClusterSize { bytes_per_sector: u64, sectors_per_cluster: u64, cluster_size: u64 },
    NoBitmapEntry,
    NoUpcaseEntry,
    NoVolumeLabel,
    GeometryUnusable,
    GeometryFallback,
    BootRegionOverflow,
    RecordUnreadable { at: u64 },
    ExtSignature { offset: u64, value: u32 },
    ExtShort,
    OemUnset,
    OemNull,
    ReservedSectorDirty,
    ChecksumOverflow,
    ChecksumUnreadable,
    BootChecksum { stored: u64, computed: u64 },
    BootRegionShort { have: u64, want: u64 },
    RepetitionsAgree { copies: u64 },
    RepetitionsDiffer { total: u64, copies: u64 },
    BackupOverflow,
    RegionUnreadable,
    RegionLengths { main: u64, backup: u64 },
    RegionsIdentical,
    RegionsDiffer,
    BootFieldDrifts,
    BootFieldDiffers,
    PartitionOffsetUnset { lba: u64, base: u64 },
    PartitionOffsetMoved { declared: u64, lba: u64 },
    VolumePastDevice { sectors: u64, bytes_per_sector: u64, end: u64, device_len: u64 },
    VolumeLengthOverflow,
    FatTooShort { sectors: u64, have: u64, clusters: u64, need: u64 },
    HeapOverlapsFats { heap: u64, fats: u64, fats_end: u64 },
    TooManyClusters { count: u64 },
    HeapPastVolume { count: u64, heap_end: u64, volume_length: u64 },
    NoClusters,
    RootOutsideHeap { cluster: u64, last: u64 },
    UnknownRevision { major: u64, minor: u64 },
    PercentInvalid { percent: u64 },
    ReservedVolumeFlags { flags: u64 },
    VolumeDirty,
    MediaFailure,
    ActiveFatMissing,
    FatOffsetOverflow,
    FatUnreadable { at: u64 },
    MediaEntry { found: u32 },
    ReservedEntry { found: u32 },
    InactiveFat,
    FatEntriesUnreadable { start: u64 },
    BadCluster,
    EntryOutsideHeap { value: u32, last: u64 },
    MoreFatEntries { rest: u64, total: u64 },
    FirstClusterOutside { first: u64, last: u64 },
    ContiguousPastHeap { clusters: u64, first: u64, last: u64, available: u64 },
    Contiguous { first: u64, last: u64 },
    ActiveFatOverflow,
    ChainLoops { cluster: u64 },
    ChainTooLong,
    ChainUnreadable { cluster: u64 },
    FatEndsBefore { cluster: u64 },
    ChainsToBad { cluster: u64 },
    ChainNoEnd { cluster: u64 },
    ChainLeavesHeap { cluster: u64, next: u32, last: u64 },
    ChainLength { clusters: u64, have: u64, want: u64, need: u64 },
    RunUnreadable { want: u64, at: u64 },
    RunShort { got: u64, want: u64, at: u64 },
    NoClustersResolved,
    DirectoryTruncated { total: u64, limit: u64 },
    EndMarker,
    ZeroSlots { count: u64 },
    ResidueSurvives { count: u64 },
    NotInUseShown { count: u64 },
    ResidueRecord { entry_type: u8 },
    EntryDeleted { type_byte: u8, live: u8 },
    NothingSurvives,
    LoneSecondary,
    SetIntact,
    SetOverwritten,
    SetDeleted { primary: u8, second: u8, third: u8 },
    MixedUse,
    SetTruncated { declared: u64, available: u64 },
    TooFewSecondaries { declared: u64 },
    NoStream,
    NameEntries { name_length: u64, needed: u64, entries: u64 },
    NameResidue,
    NameHash { stored: u64, computed: u64 },
    NameHashUnverified,
    ValidPastLength { valid: u64, length: u64 },
    UnwrittenTail { bytes: u64 },
    AllocationImpossible,
    SetChecksumMismatch { stored: u64, computed: u64 },
    DeletedSetChecksum { stored: u64, computed: u64 },
    RunsHighlighted { runs: u64 },
    NestingLimit,
    DeletedDirectory,
    BitmapLength { declared: u64, clusters: u64, need: u64 },
    BitmapUnreadable,
    PercentDisagrees { boot: u64, bitmap: u64 },
    ComputedDiffers { stored: u64, computed: u64 },
    CrosscheckOverflow,
    CrosscheckUnreadable,
    ChainedButFree,
    AllocatedWithoutChain { count: u64 },
    BitmapAgrees { compared: u64 },
    UpcaseTooLong { declared: u64 },
    UpcaseMismatch { stored: u64, computed: u64 },
    UpcaseMatches,
    UpcaseShort { have: u64, declared: u64 },
    EmptyTable,
}

/// The findings that hold when `cond` does: one, or none.
pub open spec fn when(cond: bool, f: Finding) -> Seq<Finding> {
    if cond {
        seq![f]
    } else {
        Seq::empty()
    }
}

/// Record `f` when `cond` holds.
pub fn note(out: &mut Vec<Finding>, cond: bool, f: Finding)
    ensures
        final(out)@ == old(out)@ + when(cond, f),
{
    if cond {
        out.push(f);
    }
    assert(out@ =~= old(out)@ + when(cond, f));
}

/// The most serious of a list of findings.
pub open spec fn worst(findings: Seq<Finding>) -> Status
    decreases findings.len(),
{
    if findings.len() == 0 {
        Status::Clean
    } else {
        worst(findings.drop_last()).worse(findings.last().severity())
    }
}

/// The most serious of a list of findings.
pub fn worst_of(findings: &[Finding]) -> (r: Status)
    ensures
        r == worst(findings@),
{
    let mut r = Status::Clean;
    let mut i: usize = 0;
    while i < findings.len()
        invariant
            i <= findings@.len(),
            r == worst(findings@.take(i as int)),
        decreases findings@.len() - i,
    {
        assert(findings@.take(i + 1).drop_last() =~= findings@.take(i as int));
        r = r.merge(findings[i].status());
        i += 1;
    }
    assert(findings@.take(i as int) =~= findings@);
    r
}

impl Finding {
    /// How serious this finding is.
    pub open spec fn severity(self) -> Status {
        match self {
            Finding::SectorShift { .. }
            | Finding::ClusterShift { .. }
            | Finding::ClusterSize { .. }
            | Finding::NoBitmapEntry
            | Finding::NoUpcaseEntry
            | Finding::GeometryUnusable
            | Finding::GeometryFallback
            | Finding::BootRegionOverflow
            | Finding::ExtSignature { .. }
            | Finding::ChecksumOverflow
            | Finding::BootChecksum { .. }
            | Finding::RepetitionsDiffer { .. }
            | Finding::BackupOverflow
            | Finding::BootFieldDiffers
            | Finding::VolumePastDevice { .. }
            | Finding::VolumeLengthOverflow
            | Finding::FatTooShort { .. }
            | Finding::HeapOverlapsFats { .. }
            | Finding::TooManyClusters { .. }
            | Finding::HeapPastVolume { .. }
            | Finding::NoClusters
            | Finding::RootOutsideHeap { .. }
            | Finding::ActiveFatMissing
            | Finding::FatOffsetOverflow
            | Finding::MediaEntry { .. }
            | Finding::ReservedEntry { .. }
            | Finding::EntryOutsideHeap { .. }
            | Finding::FirstClusterOutside { .. }
            | Finding::ContiguousPastHeap { .. }
            | Finding::ActiveFatOverflow
            | Finding::ChainLoops { .. }
            | Finding::ChainTooLong
            | Finding::ChainNoEnd { .. }
            | Finding::ChainLeavesHeap { .. }
            | Finding::NoClustersResolved
            | Finding::SetTruncated { .. }
            | Finding::TooFewSecondaries { .. }
            | Finding::NoStream
            | Finding::SetChecksumMismatch { .. }
            | Finding::BitmapLength { .. }
            | Finding::BitmapUnreadable
            | Finding::ComputedDiffers { .. }
            | Finding::UpcaseMismatch { .. } => Status::Bad,
            Finding::NoVolumeLabel
            | Finding::OemUnset
            | Finding::OemNull
            | Finding::RepetitionsAgree { .. }
            | Finding::RegionsIdentical
            | Finding::BootFieldDrifts
            | Finding::PartitionOffsetUnset { .. }
            | Finding::InactiveFat
            | Finding::MoreFatEntries { .. }
            | Finding::Contiguous { .. }
            | Finding::EndMarker
            | Finding::ZeroSlots { .. }
            | Finding::NotInUseShown { .. }
            | Finding::EntryDeleted { .. }
            | Finding::NothingSurvives
            | Finding::SetIntact
            | Finding::SetDeleted { .. }
            | Finding::NameResidue
            | Finding::NameHashUnverified
            | Finding::UnwrittenTail { .. }
            | Finding::DeletedSetChecksum { .. }
            | Finding::RunsHighlighted { .. }
            | Finding::DeletedDirectory
            | Finding::PercentDisagrees { .. }
            | Finding::AllocatedWithoutChain { .. }
            | Finding::BitmapAgrees { .. }
            | Finding::UpcaseMatches => Status::Info,
            Finding::RecordUnreadable { .. }
            | Finding::ChecksumUnreadable
            | Finding::RegionUnreadable
            | Finding::FatUnreadable { .. }
            | Finding::FatEntriesUnreadable { .. }
            | Finding::ChainUnreadable { .. }
            | Finding::RunUnreadable { .. }
            | Finding::RunShort { .. }
            | Finding::CrosscheckUnreadable => Status::Unreadable,
            Finding::ExtShort
            | Finding::ReservedSectorDirty
            | Finding::BootRegionShort { .. }
            | Finding::RegionLengths { .. }
            | Finding::RegionsDiffer
            | Finding::PartitionOffsetMoved { .. }
            | Finding::UnknownRevision { .. }
            | Finding::PercentInvalid { .. }
            | Finding::ReservedVolumeFlags { .. }
            | Finding::VolumeDirty
            | Finding::MediaFailure
            | Finding::BadCluster
            | Finding::FatEndsBefore { .. }
            | Finding::ChainsToBad { .. }
            | Finding::ChainLength { .. }
            | Finding::DirectoryTruncated { .. }
            | Finding::ResidueSurvives { .. }
            | Finding::ResidueRecord { .. }
            | Finding::LoneSecondary
            | Finding::SetOverwritten
            | Finding::MixedUse
            | Finding::NameEntries { .. }
            | Finding::NameHash { .. }
            | Finding::ValidPastLength { .. }
            | Finding::AllocationImpossible
            | Finding::NestingLimit
            | Finding::CrosscheckOverflow
            | Finding::ChainedButFree
            | Finding::UpcaseTooLong { .. }
            | Finding::UpcaseShort { .. }
            | Finding::EmptyTable => Status::Warn,
        }
    }

    /// How serious this finding is.
    pub fn status(&self) -> (r: Status)
        ensures
            r == self.severity(),
    {
        match *self {
            Finding::SectorShift { .. }
            | Finding::ClusterShift { .. }
            | Finding::ClusterSize { .. }
            | Finding::NoBitmapEntry
            | Finding::NoUpcaseEntry
            | Finding::GeometryUnusable
            | Finding::GeometryFallback
            | Finding::BootRegionOverflow
            | Finding::ExtSignature { .. }
            | Finding::ChecksumOverflow
            | Finding::BootChecksum { .. }
            | Finding::RepetitionsDiffer { .. }
            | Finding::BackupOverflow
            | Finding::BootFieldDiffers
            | Finding::VolumePastDevice { .. }
            | Finding::VolumeLengthOverflow
            | Finding::FatTooShort { .. }
            | Finding::HeapOverlapsFats { .. }
            | Finding::TooManyClusters { .. }
            | Finding::HeapPastVolume { .. }
            | Finding::NoClusters
            | Finding::RootOutsideHeap { .. }
            | Finding::ActiveFatMissing
            | Finding::FatOffsetOverflow
            | Finding::MediaEntry { .. }
            | Finding::ReservedEntry { .. }
            | Finding::EntryOutsideHeap { .. }
            | Finding::FirstClusterOutside { .. }
            | Finding::ContiguousPastHeap { .. }
            | Finding::ActiveFatOverflow
            | Finding::ChainLoops { .. }
            | Finding::ChainTooLong
            | Finding::ChainNoEnd { .. }
            | Finding::ChainLeavesHeap { .. }
            | Finding::NoClustersResolved
            | Finding::SetTruncated { .. }
            | Finding::TooFewSecondaries { .. }
            | Finding::NoStream
            | Finding::SetChecksumMismatch { .. }
            | Finding::BitmapLength { .. }
            | Finding::BitmapUnreadable
            | Finding::ComputedDiffers { .. }
            | Finding::UpcaseMismatch { .. } => Status::Bad,
            Finding::NoVolumeLabel
            | Finding::OemUnset
            | Finding::OemNull
            | Finding::RepetitionsAgree { .. }
            | Finding::RegionsIdentical
            | Finding::BootFieldDrifts
            | Finding::PartitionOffsetUnset { .. }
            | Finding::InactiveFat
            | Finding::MoreFatEntries { .. }
            | Finding::Contiguous { .. }
            | Finding::EndMarker
            | Finding::ZeroSlots { .. }
            | Finding::NotInUseShown { .. }
            | Finding::EntryDeleted { .. }
            | Finding::NothingSurvives
            | Finding::SetIntact
            | Finding::SetDeleted { .. }
            | Finding::NameResidue
            | Finding::NameHashUnverified
            | Finding::UnwrittenTail { .. }
            | Finding::DeletedSetChecksum { .. }
            | Finding::RunsHighlighted { .. }
            | Finding::DeletedDirectory
            | Finding::PercentDisagrees { .. }
            | Finding::AllocatedWithoutChain { .. }
            | Finding::BitmapAgrees { .. }
            | Finding::UpcaseMatches => Status::Info,
            Finding::RecordUnreadable { .. }
            | Finding::ChecksumUnreadable
            | Finding::RegionUnreadable
            | Finding::FatUnreadable { .. }
            | Finding::FatEntriesUnreadable { .. }
            | Finding::ChainUnreadable { .. }
            | Finding::RunUnreadable { .. }
            | Finding::RunShort { .. }
            | Finding::CrosscheckUnreadable => Status::Unreadable,
            Finding::ExtShort
            | Finding::ReservedSectorDirty
            | Finding::BootRegionShort { .. }
            | Finding::RegionLengths { .. }
            | Finding::RegionsDiffer
            | Finding::PartitionOffsetMoved { .. }
            | Finding::UnknownRevision { .. }
            | Finding::PercentInvalid { .. }
            | Finding::ReservedVolumeFlags { .. }
            | Finding::VolumeDirty
            | Finding::MediaFailure
            | Finding::BadCluster
            | Finding::FatEndsBefore { .. }
            | Finding::ChainsToBad { .. }
            | Finding::ChainLength { .. }
            | Finding::DirectoryTruncated { .. }
            | Finding::ResidueSurvives { .. }
            | Finding::ResidueRecord { .. }
            | Finding::LoneSecondary
            | Finding::SetOverwritten
            | Finding::MixedUse
            | Finding::NameEntries { .. }
            | Finding::NameHash { .. }
            | Finding::ValidPastLength { .. }
            | Finding::AllocationImpossible
            | Finding::NestingLimit
            | Finding::CrosscheckOverflow
            | Finding::ChainedButFree
            | Finding::UpcaseTooLong { .. }
            | Finding::UpcaseShort { .. }
            | Finding::EmptyTable => Status::Warn,
        }
    }

    /// The record field this finding is about, where it is about one.
    pub open spec fn about(self) -> Option<Seq<char>> {
        match self {
            Finding::PartitionOffsetUnset { .. }
            | Finding::PartitionOffsetMoved { .. } => Some("partition_offset"@),
            Finding::VolumePastDevice { .. }
            | Finding::VolumeLengthOverflow => Some("volume_length"@),
            Finding::FatTooShort { .. } => Some("fat_length"@),
            Finding::HeapOverlapsFats { .. } => Some("cluster_heap_offset"@),
            Finding::TooManyClusters { .. }
            | Finding::HeapPastVolume { .. }
            | Finding::NoClusters => Some("cluster_count"@),
            Finding::RootOutsideHeap { .. } => Some("first_cluster_of_root"@),
            Finding::UnknownRevision { .. } => Some("fs_revision"@),
            Finding::PercentInvalid { .. } => Some("percent_in_use"@),
            Finding::ReservedVolumeFlags { .. }
            | Finding::VolumeDirty
            | Finding::MediaFailure
            | Finding::ActiveFatMissing => Some("volume_flags"@),
            Finding::SetChecksumMismatch { .. }
            | Finding::DeletedSetChecksum { .. } => Some("set_checksum"@),
            _ => None,
        }
    }

    /// The record field this finding is about, where it is about one.
    pub fn field(&self) -> (r: Option<&'static str>)
        ensures
            match r {
                Some(s) => self.about() == Some(s@),
                None => self.about() is None,
            },
    {
        match *self {
            Finding::PartitionOffsetUnset { .. }
            | Finding::PartitionOffsetMoved { .. } => Some("partition_offset"),
            Finding::VolumePastDevice { .. }
            | Finding::VolumeLengthOverflow => Some("volume_length"),
            Finding::FatTooShort { .. } => Some("fat_length"),
            Finding::HeapOverlapsFats { .. } => Some("cluster_heap_offset"),
            Finding::TooManyClusters { .. }
            | Finding::HeapPastVolume { .. }
            | Finding::NoClusters => Some("cluster_count"),
            Finding::RootOutsideHeap { .. } => Some("first_cluster_of_root"),
            Finding::UnknownRevision { .. } => Some("fs_revision"),
            Finding::PercentInvalid { .. } => Some("percent_in_use"),
            Finding::ReservedVolumeFlags { .. }
            | Finding::VolumeDirty
            | Finding::MediaFailure
            | Finding::ActiveFatMissing => Some("volume_flags"),
            Finding::SetChecksumMismatch { .. }
            | Finding::DeletedSetChecksum { .. } => Some("set_checksum"),
            _ => None,
        }
    }

    /// What was found, in words.
    pub open spec fn text(self) -> Seq<char> {
        match self {
            Finding::SectorShift { shift, .. } => "bytes_per_sector_shift is "@ + text::dec(shift as int) + "; the specification allows 9..=12 (512..4096 bytes)"@,
            Finding::ClusterShift { shift } => "sectors_per_cluster_shift is "@ + text::dec(shift as int) + "; the specification allows 0..=25 and no more than 25 - bytes_per_sector_shift"@,
            Finding::ClusterSize { bytes_per_sector, sectors_per_cluster, cluster_size } => "bytes_per_sector ("@ + text::dec(bytes_per_sector as int) + ") x sectors_per_cluster ("@ + text::dec(sectors_per_cluster as int) + ") is "@ + text::dec(cluster_size as int) + " bytes; the specification caps a cluster at 32 MiB"@,
            Finding::NoBitmapEntry => "the root directory has no 0x81 allocation bitmap entry"@,
            Finding::NoUpcaseEntry => "the root directory has no 0x82 up-case table entry"@,
            Finding::NoVolumeLabel => "the root directory has no in-use 0x83 volume label entry: the volume is unlabelled, or the label was cleared"@,
            Finding::GeometryUnusable => "the boot sector geometry is unusable, so the FAT, the cluster heap and the root directory were not followed"@,
            Finding::GeometryFallback => "one or more shifts were out of range, so these are fallbacks and not facts"@,
            Finding::BootRegionOverflow => "the boot region offset overflows a 64-bit device"@,
            Finding::RecordUnreadable { at } => "the bytes at "@ + text::hex(at as int, 1) + " could not be read"@,
            Finding::ExtSignature { offset, value } => "signature at offset "@ + text::dec(offset as int) + " is "@ + text::hex(value as int, 8) + ", expected 0xAA550000"@,
            Finding::ExtShort => "the sector is shorter than its signature"@,
            Finding::OemUnset => "every OEM parameter slot is 0xFF, which is how mkfs.exfat leaves an unused sector; the specification's null record is all zero"@,
            Finding::OemNull => "every OEM parameter slot is the null record"@,
            Finding::ReservedSectorDirty => "the reserved sector is not zero"@,
            Finding::ChecksumOverflow => "the checksum sector offset overflows"@,
            Finding::ChecksumUnreadable => "the boot region could not be read, so its checksum is unknown"@,
            Finding::BootChecksum { stored, computed } => "stored "@ + text::hex(stored as int, 8) + ", computed "@ + text::hex(computed as int, 8),
            Finding::BootRegionShort { have, want } => "only "@ + text::dec(have as int) + " of "@ + text::dec(want as int) + " boot region bytes were readable, so the computed value covers less than the specification requires"@,
            Finding::RepetitionsAgree { copies } => "all "@ + text::dec(copies as int) + " copies of the checksum are identical"@,
            Finding::RepetitionsDiffer { total, copies } => ""@ + text::dec(total as int) + " of "@ + text::dec(copies as int) + " copies differ from the first"@,
            Finding::BackupOverflow => "the backup boot region offset overflows"@,
            Finding::RegionUnreadable => "one of the two boot regions could not be read"@,
            Finding::RegionLengths { main, backup } => "the two regions are different lengths on this device: "@ + text::dec(main as int) + " and "@ + text::dec(backup as int) + " bytes readable"@,
            Finding::RegionsIdentical => "the backup boot region is byte-identical to the main one"@,
            Finding::RegionsDiffer => "the two boot regions differ"@,
            Finding::BootFieldDrifts => "a boot sector field differs between the two regions"@,
            Finding::BootFieldDiffers => "a boot sector field differs between the two regions"@,
            Finding::PartitionOffsetUnset { lba, base } => "declared 0, which the specification defines as 'no meaningful value'; this volume was actually opened at LBA "@ + text::dec(lba as int) + " ("@ + text::hex(base as int, 1) + ")"@,
            Finding::PartitionOffsetMoved { declared, lba } => "declared LBA "@ + text::dec(declared as int) + ", but this volume was opened at LBA "@ + text::dec(lba as int),
            Finding::VolumePastDevice { sectors, bytes_per_sector, end, device_len } => ""@ + text::dec(sectors as int) + " sectors x "@ + text::dec(bytes_per_sector as int) + " bytes runs to "@ + text::hex(end as int, 1) + ", past the end of the "@ + text::dec(device_len as int) + "-byte device"@,
            Finding::VolumeLengthOverflow => "volume_length x bytes_per_sector overflows 64 bits"@,
            Finding::FatTooShort { sectors, have, clusters, need } => ""@ + text::dec(sectors as int) + " sectors is "@ + text::dec(have as int) + " bytes, but "@ + text::dec(clusters as int) + " clusters plus the two reserved entries need "@ + text::dec(need as int),
            Finding::HeapOverlapsFats { heap, fats, fats_end } => "the heap starts at sector "@ + text::dec(heap as int) + " but the "@ + text::dec(fats as int) + " FAT(s) end at sector "@ + text::dec(fats_end as int) + ": they overlap"@,
            Finding::TooManyClusters { count } => ""@ + text::dec(count as int) + " exceeds the 4294967285 the format allows: the four highest FAT values are reserved"@,
            Finding::HeapPastVolume { count, heap_end, volume_length } => ""@ + text::dec(count as int) + " clusters reach sector "@ + text::dec(heap_end as int) + ", past the declared volume length of "@ + text::dec(volume_length as int),
            Finding::NoClusters => "the heap has no clusters"@,
            Finding::RootOutsideHeap { cluster, last } => "cluster "@ + text::dec(cluster as int) + " is outside the heap's 2..="@ + text::dec(last as int) + " range, so the root directory cannot be found"@,
            Finding::UnknownRevision { major, minor } => "revision "@ + text::dec(major as int) + "."@ + text::dec_padded(minor as int, 2) + " — the only published revision is 1.00"@,
            Finding::PercentInvalid { percent } => ""@ + text::dec(percent as int) + " is neither a percentage (0..=100) nor 0xFF ('not available')"@,
            Finding::ReservedVolumeFlags { flags } => "reserved bits 4..15 are set ("@ + text::hex(flags as int, 4) + ")"@,
            Finding::VolumeDirty => "VolumeDirty is set: the volume was not cleanly unmounted"@,
            Finding::MediaFailure => "MediaFailure is set: the driver has recorded unreadable clusters"@,
            Finding::ActiveFatMissing => "ActiveFat selects the second FAT, but number_of_fats is 1"@,
            Finding::FatOffsetOverflow => "the FAT offset overflows a 64-bit device"@,
            Finding::FatUnreadable { at } => "the FAT at "@ + text::hex(at as int, 1) + " could not be read"@,
            Finding::MediaEntry { found } => "expected 0xFFFFFFF8, found "@ + text::hex(found as int, 8),
            Finding::ReservedEntry { found } => "expected 0xFFFFFFFF, found "@ + text::hex(found as int, 8),
            Finding::InactiveFat => "this is not the active FAT; volume_flags bit 0 selects the other one"@,
            Finding::FatEntriesUnreadable { start } => "the FAT entries at "@ + text::hex(start as int, 1) + " could not be read"@,
            Finding::BadCluster => "the driver marked this cluster unusable"@,
            Finding::EntryOutsideHeap { value, last } => ""@ + text::dec(value as int) + " is outside the heap's 2..="@ + text::dec(last as int) + " range"@,
            Finding::MoreFatEntries { rest, total } => ""@ + text::dec(rest as int) + " further entries not expanded; this array holds "@ + text::dec(total as int) + " in total"@,
            Finding::FirstClusterOutside { first, last } => "first cluster "@ + text::dec(first as int) + " is outside the heap's 2..="@ + text::dec(last as int) + " range"@,
            Finding::ContiguousPastHeap { clusters, first, last, available } => "contiguous allocation of "@ + text::dec(clusters as int) + " clusters from "@ + text::dec(first as int) + " runs past the last cluster ("@ + text::dec(last as int) + "); only "@ + text::dec(available as int) + " are inside the heap"@,
            Finding::Contiguous { first, last } => "NoFatChain is set: clusters "@ + text::dec(first as int) + "..="@ + text::dec(last as int) + " are contiguous and the FAT was not consulted"@,
            Finding::ActiveFatOverflow => "the active FAT's offset overflows"@,
            Finding::ChainLoops { cluster } => "the FAT chain returns to cluster "@ + text::dec(cluster as int) + ": it loops"@,
            Finding::ChainTooLong => "the FAT chain is longer than 65536 clusters; traversal stopped"@,
            Finding::ChainUnreadable { cluster } => "the FAT entry for cluster "@ + text::dec(cluster as int) + " could not be read"@,
            Finding::FatEndsBefore { cluster } => "the FAT ends before cluster "@ + text::dec(cluster as int) + "'s entry"@,
            Finding::ChainsToBad { cluster } => "cluster "@ + text::dec(cluster as int) + " chains to the bad-cluster marker"@,
            Finding::ChainNoEnd { cluster } => "the FAT entry for cluster "@ + text::dec(cluster as int) + " is zero, so the chain has no end marker"@,
            Finding::ChainLeavesHeap { cluster, next, last } => "cluster "@ + text::dec(cluster as int) + " chains to "@ + text::dec(next as int) + ", outside the heap's 2..="@ + text::dec(last as int) + " range"@,
            Finding::ChainLength { clusters, have, want, need } => "the chain holds "@ + text::dec(clusters as int) + " clusters ("@ + text::dec(have as int) + " bytes) but the record declares "@ + text::dec(want as int) + " bytes, which needs "@ + text::dec(need as int),
            Finding::RunUnreadable { want, at } => ""@ + text::dec(want as int) + " bytes at "@ + text::hex(at as int, 1) + " could not be read"@,
            Finding::RunShort { got, want, at } => "only "@ + text::dec(got as int) + " of "@ + text::dec(want as int) + " bytes at "@ + text::hex(at as int, 1) + " were readable"@,
            Finding::NoClustersResolved => "no clusters could be resolved for this directory"@,
            Finding::DirectoryTruncated { total, limit } => "this directory is "@ + text::dec(total as int) + " bytes; only the first "@ + text::dec(limit as int) + " were scanned"@,
            Finding::EndMarker => "the first entry with type 0x00 ends the directory; nothing at or after it is allocated"@,
            Finding::ZeroSlots { count } => ""@ + text::dec(count as int) + " zeroed entry slots follow the end-of-directory marker"@,
            Finding::ResidueSurvives { count } => ""@ + text::dec(count as int) + " non-zero entry slot(s) survive past the end-of-directory marker"@,
            Finding::NotInUseShown { count } => ""@ + text::dec(count as int) + " entry or entry set(s) here are marked not-in-use and are shown below"@,
            Finding::ResidueRecord { entry_type } => "this slot is past the end-of-directory marker, so no driver will read it, but it still holds a "@ + types::entry_type_name(entry_type)@ + " record"@,
            Finding::EntryDeleted { type_byte, live } => "InUse (bit 7) is clear: the type byte is "@ + text::hex(type_byte as int, 2) + " where a live record would be "@ + text::hex(live as int, 2),
            Finding::NothingSurvives => "nothing survives in it: every byte but the type byte is zero, so this is a slot that was pre-allocated and never used, or one that was overwritten"@,
            Finding::LoneSecondary => "a secondary entry appearing on its own: it belongs to an entry set whose 0x85 primary is missing or was overwritten"@,
            Finding::SetIntact => "the set checksum matches once the InUse bits are restored: nothing but those bits was changed, so the record is intact"@,
            Finding::SetOverwritten => "the set checksum does not match even with the InUse bits restored: part of this record was overwritten after it was deleted"@,
            Finding::SetDeleted { primary, second, third } => "deleted: the type bytes are "@ + text::hex(primary as int, 2) + "/"@ + text::hex(second as int, 2) + "/"@ + text::hex(third as int, 2) + "... where a live set would be 0x85/0xC0/0xC1"@,
            Finding::MixedUse => "the records in this set do not agree about whether they are in use"@,
            Finding::SetTruncated { declared, available } => "secondary_count says "@ + text::dec(declared as int) + " but only "@ + text::dec(available as int) + " entries remain in this directory; the set is truncated"@,
            Finding::TooFewSecondaries { declared } => "secondary_count is "@ + text::dec(declared as int) + "; every file needs at least a stream extension and one file name entry"@,
            Finding::NoStream => "the set has no 0xC0 stream extension, so its size and first cluster are unknown"@,
            Finding::NameEntries { name_length, needed, entries } => "name_length "@ + text::dec(name_length as int) + " needs "@ + text::dec(needed as int) + " file name entries, but the set has "@ + text::dec(entries as int),
            Finding::NameResidue => "the file name entries hold non-zero code units past name_length"@,
            Finding::NameHash { stored, computed } => "name_hash is "@ + text::hex(stored as int, 4) + " but the assembled name hashes to "@ + text::hex(computed as int, 4),
            Finding::NameHashUnverified => "name_hash not verified: the name contains code units outside ASCII and hashing them needs the volume's up-case table, which this build does not expand"@,
            Finding::ValidPastLength { valid, length } => "valid_data_length "@ + text::dec(valid as int) + " exceeds data_length "@ + text::dec(length as int),
            Finding::UnwrittenTail { bytes } => ""@ + text::dec(bytes as int) + " bytes of the allocation past valid_data_length were never written"@,
            Finding::AllocationImpossible => "AllocationPossible is clear, so first_cluster and data_length must both be zero, and they are not"@,
            Finding::SetChecksumMismatch { stored, computed } => "stored "@ + text::hex(stored as int, 4) + ", computed "@ + text::hex(computed as int, 4),
            Finding::DeletedSetChecksum { stored, computed } => "stored "@ + text::hex(stored as int, 4) + ", computed "@ + text::hex(computed as int, 4),
            Finding::RunsHighlighted { runs } => ""@ + text::dec(runs as int) + " runs, of which the first 64 are highlighted"@,
            Finding::NestingLimit => "not expanded: 16 levels of nesting is the limit"@,
            Finding::DeletedDirectory => "a deleted directory's clusters are free and may already belong to something else; they are not expanded as a directory"@,
            Finding::BitmapLength { declared, clusters, need } => "the entry declares "@ + text::dec(declared as int) + " bytes but "@ + text::dec(clusters as int) + " clusters need "@ + text::dec(need as int),
            Finding::BitmapUnreadable => "the bitmap could not be read"@,
            Finding::PercentDisagrees { boot, bitmap } => "the boot sector says "@ + text::dec(boot as int) + "%, the bitmap says "@ + text::dec(bitmap as int) + "%"@,
            Finding::ComputedDiffers { stored, computed } => "stored "@ + text::hex(stored as int, 1) + ", computed "@ + text::hex(computed as int, 1),
            Finding::CrosscheckOverflow => "the active FAT's offset overflows"@,
            Finding::CrosscheckUnreadable => "the FAT could not be read, so no comparison was made"@,
            Finding::ChainedButFree => "clusters with a FAT entry are marked free in the bitmap"@,
            Finding::AllocatedWithoutChain { count } => ""@ + text::dec(count as int) + " cluster(s) are allocated with a zero FAT entry, which is the normal state for a contiguous (NoFatChain) file"@,
            Finding::BitmapAgrees { compared } => "the bitmap and the FAT agree over the first "@ + text::dec(compared as int) + " clusters"@,
            Finding::UpcaseTooLong { declared } => "the table declares "@ + text::dec(declared as int) + " bytes, more than the 262144 this build will read, so its checksum was not verified"@,
            Finding::UpcaseMismatch { stored, computed } => "the 0x82 entry stores "@ + text::hex(stored as int, 8) + " but the table hashes to "@ + text::hex(computed as int, 8),
            Finding::UpcaseMatches => "the table matches the checksum in its directory entry"@,
            Finding::UpcaseShort { have, declared } => "only "@ + text::dec(have as int) + " of "@ + text::dec(declared as int) + " table bytes were readable, so the checksum was not verified"@,
            Finding::EmptyTable => "the table decoded to no mappings"@,
        }
    }

    /// What was found, in words.
    pub fn message(&self) -> (r: String)
        ensures
            r@ == self.text(),
    {
        match *self {
            Finding::SectorShift { shift, .. } => Text::of("bytes_per_sector_shift is ").dec(shift as u64).lit("; the specification allows 9..=12 (512..4096 bytes)").done(),
            Finding::ClusterShift { shift } => Text::of("sectors_per_cluster_shift is ").dec(shift as u64).lit("; the specification allows 0..=25 and no more than 25 - bytes_per_sector_shift").done(),
            Finding::ClusterSize { bytes_per_sector, sectors_per_cluster, cluster_size } => Text::of("bytes_per_sector (").dec(bytes_per_sector).lit(") x sectors_per_cluster (").dec(sectors_per_cluster).lit(") is ").dec(cluster_size).lit(" bytes; the specification caps a cluster at 32 MiB").done(),
            Finding::NoBitmapEntry => Text::of("the root directory has no 0x81 allocation bitmap entry").done(),
            Finding::NoUpcaseEntry => Text::of("the root directory has no 0x82 up-case table entry").done(),
            Finding::NoVolumeLabel => Text::of("the root directory has no in-use 0x83 volume label entry: the volume is unlabelled, or the label was cleared").done(),
            Finding::GeometryUnusable => Text::of("the boot sector geometry is unusable, so the FAT, the cluster heap and the root directory were not followed").done(),
            Finding::GeometryFallback => Text::of("one or more shifts were out of range, so these are fallbacks and not facts").done(),
            Finding::BootRegionOverflow => Text::of("the boot region offset overflows a 64-bit device").done(),
            Finding::RecordUnreadable { at } => Text::of("the bytes at ").hex(at, 1).lit(" could not be read").done(),
            Finding::ExtSignature { offset, value } => Text::of("signature at offset ").dec(offset).lit(" is ").hex(value as u64, 8).lit(", expected 0xAA550000").done(),
            Finding::ExtShort => Text::of("the sector is shorter than its signature").done(),
            Finding::OemUnset => Text::of("every OEM parameter slot is 0xFF, which is how mkfs.exfat leaves an unused sector; the specification's null record is all zero").done(),
            Finding::OemNull => Text::of("every OEM parameter slot is the null record").done(),
            Finding::ReservedSectorDirty => Text::of("the reserved sector is not zero").done(),
            Finding::ChecksumOverflow => Text::of("the checksum sector offset overflows").done(),
            Finding::ChecksumUnreadable => Text::of("the boot region could not be read, so its checksum is unknown").done(),
            Finding::BootChecksum { stored, computed } => Text::of("stored ").hex(stored, 8).lit(", computed ").hex(computed, 8).done(),
            Finding::BootRegionShort { have, want } => Text::of("only ").dec(have).lit(" of ").dec(want).lit(" boot region bytes were readable, so the computed value covers less than the specification requires").done(),
            Finding::RepetitionsAgree { copies } => Text::of("all ").dec(copies).lit(" copies of the checksum are identical").done(),
            Finding::RepetitionsDiffer { total, copies } => Text::of("").dec(total).lit(" of ").dec(copies).lit(" copies differ from the first").done(),
            Finding::BackupOverflow => Text::of("the backup boot region offset overflows").done(),
            Finding::RegionUnreadable => Text::of("one of the two boot regions could not be read").done(),
            Finding::RegionLengths { main, backup } => Text::of("the two regions are different lengths on this device: ").dec(main).lit(" and ").dec(backup).lit(" bytes readable").done(),
            Finding::RegionsIdentical => Text::of("the backup boot region is byte-identical to the main one").done(),
            Finding::RegionsDiffer => Text::of("the two boot regions differ").done(),
            Finding::BootFieldDrifts => Text::of("a boot sector field differs between the two regions").done(),
            Finding::BootFieldDiffers => Text::of("a boot sector field differs between the two regions").done(),
            Finding::PartitionOffsetUnset { lba, base } => Text::of("declared 0, which the specification defines as 'no meaningful value'; this volume was actually opened at LBA ").dec(lba).lit(" (").hex(base, 1).lit(")").done(),
            Finding::PartitionOffsetMoved { declared, lba } => Text::of("declared LBA ").dec(declared).lit(", but this volume was opened at LBA ").dec(lba).done(),
            Finding::VolumePastDevice { sectors, bytes_per_sector, end, device_len } => Text::of("").dec(sectors).lit(" sectors x ").dec(bytes_per_sector).lit(" bytes runs to ").hex(end, 1).lit(", past the end of the ").dec(device_len).lit("-byte device").done(),
            Finding::VolumeLengthOverflow => Text::of("volume_length x bytes_per_sector overflows 64 bits").done(),
            Finding::FatTooShort { sectors, have, clusters, need } => Text::of("").dec(sectors).lit(" sectors is ").dec(have).lit(" bytes, but ").dec(clusters).lit(" clusters plus the two reserved entries need ").dec(need).done(),
            Finding::HeapOverlapsFats { heap, fats, fats_end } => Text::of("the heap starts at sector ").dec(heap).lit(" but the ").dec(fats).lit(" FAT(s) end at sector ").dec(fats_end).lit(": they overlap").done(),
            Finding::TooManyClusters { count } => Text::of("").dec(count).lit(" exceeds the 4294967285 the format allows: the four highest FAT values are reserved").done(),
            Finding::HeapPastVolume { count, heap_end, volume_length } => Text::of("").dec(count).lit(" clusters reach sector ").dec(heap_end).lit(", past the declared volume length of ").dec(volume_length).done(),
            Finding::NoClusters => Text::of("the heap has no clusters").done(),
            Finding::RootOutsideHeap { cluster, last } => Text::of("cluster ").dec(cluster).lit(" is outside the heap's 2..=").dec(last).lit(" range, so the root directory cannot be found").done(),
            Finding::UnknownRevision { major, minor } => Text::of("revision ").dec(major).lit(".").dec_padded(minor, 2).lit(" — the only published revision is 1.00").done(),
            Finding::PercentInvalid { percent } => Text::of("").dec(percent).lit(" is neither a percentage (0..=100) nor 0xFF ('not available')").done(),
            Finding::ReservedVolumeFlags { flags } => Text::of("reserved bits 4..15 are set (").hex(flags, 4).lit(")").done(),
            Finding::VolumeDirty => Text::of("VolumeDirty is set: the volume was not cleanly unmounted").done(),
            Finding::MediaFailure => Text::of("MediaFailure is set: the driver has recorded unreadable clusters").done(),
            Finding::ActiveFatMissing => Text::of("ActiveFat selects the second FAT, but number_of_fats is 1").done(),
            Finding::FatOffsetOverflow => Text::of("the FAT offset overflows a 64-bit device").done(),
            Finding::FatUnreadable { at } => Text::of("the FAT at ").hex(at, 1).lit(" could not be read").done(),
            Finding::MediaEntry { found } => Text::of("expected 0xFFFFFFF8, found ").hex(found as u64, 8).done(),
            Finding::ReservedEntry { found } => Text::of("expected 0xFFFFFFFF, found ").hex(found as u64, 8).done(),
            Finding::InactiveFat => Text::of("this is not the active FAT; volume_flags bit 0 selects the other one").done(),
            Finding::FatEntriesUnreadable { start } => Text::of("the FAT entries at ").hex(start, 1).lit(" could not be read").done(),
            Finding::BadCluster => Text::of("the driver marked this cluster unusable").done(),
            Finding::EntryOutsideHeap { value, last } => Text::of("").dec(value as u64).lit(" is outside the heap's 2..=").dec(last).lit(" range").done(),
            Finding::MoreFatEntries { rest, total } => Text::of("").dec(rest).lit(" further entries not expanded; this array holds ").dec(total).lit(" in total").done(),
            Finding::FirstClusterOutside { first, last } => Text::of("first cluster ").dec(first).lit(" is outside the heap's 2..=").dec(last).lit(" range").done(),
            Finding::ContiguousPastHeap { clusters, first, last, available } => Text::of("contiguous allocation of ").dec(clusters).lit(" clusters from ").dec(first).lit(" runs past the last cluster (").dec(last).lit("); only ").dec(available).lit(" are inside the heap").done(),
            Finding::Contiguous { first, last } => Text::of("NoFatChain is set: clusters ").dec(first).lit("..=").dec(last).lit(" are contiguous and the FAT was not consulted").done(),
            Finding::ActiveFatOverflow => Text::of("the active FAT's offset overflows").done(),
            Finding::ChainLoops { cluster } => Text::of("the FAT chain returns to cluster ").dec(cluster).lit(": it loops").done(),
            Finding::ChainTooLong => Text::of("the FAT chain is longer than 65536 clusters; traversal stopped").done(),
            Finding::ChainUnreadable { cluster } => Text::of("the FAT entry for cluster ").dec(cluster).lit(" could not be read").done(),
            Finding::FatEndsBefore { cluster } => Text::of("the FAT ends before cluster ").dec(cluster).lit("'s entry").done(),
            Finding::ChainsToBad { cluster } => Text::of("cluster ").dec(cluster).lit(" chains to the bad-cluster marker").done(),
            Finding::ChainNoEnd { cluster } => Text::of("the FAT entry for cluster ").dec(cluster).lit(" is zero, so the chain has no end marker").done(),
            Finding::ChainLeavesHeap { cluster, next, last } => Text::of("cluster ").dec(cluster).lit(" chains to ").dec(next as u64).lit(", outside the heap's 2..=").dec(last).lit(" range").done(),
            Finding::ChainLength { clusters, have, want, need } => Text::of("the chain holds ").dec(clusters).lit(" clusters (").dec(have).lit(" bytes) but the record declares ").dec(want).lit(" bytes, which needs ").dec(need).done(),
            Finding::RunUnreadable { want, at } => Text::of("").dec(want).lit(" bytes at ").hex(at, 1).lit(" could not be read").done(),
            Finding::RunShort { got, want, at } => Text::of("only ").dec(got).lit(" of ").dec(want).lit(" bytes at ").hex(at, 1).lit(" were readable").done(),
            Finding::NoClustersResolved => Text::of("no clusters could be resolved for this directory").done(),
            Finding::DirectoryTruncated { total, limit } => Text::of("this directory is ").dec(total).lit(" bytes; only the first ").dec(limit).lit(" were scanned").done(),
            Finding::EndMarker => Text::of("the first entry with type 0x00 ends the directory; nothing at or after it is allocated").done(),
            Finding::ZeroSlots { count } => Text::of("").dec(count).lit(" zeroed entry slots follow the end-of-directory marker").done(),
            Finding::ResidueSurvives { count } => Text::of("").dec(count).lit(" non-zero entry slot(s) survive past the end-of-directory marker").done(),
            Finding::NotInUseShown { count } => Text::of("").dec(count).lit(" entry or entry set(s) here are marked not-in-use and are shown below").done(),
            Finding::ResidueRecord { entry_type } => Text::of("this slot is past the end-of-directory marker, so no driver will read it, but it still holds a ").lit(types::entry_type_label(entry_type)).lit(" record").done(),
            Finding::EntryDeleted { type_byte, live } => Text::of("InUse (bit 7) is clear: the type byte is ").hex(type_byte as u64, 2).lit(" where a live record would be ").hex(live as u64, 2).done(),
            Finding::NothingSurvives => Text::of("nothing survives in it: every byte but the type byte is zero, so this is a slot that was pre-allocated and never used, or one that was overwritten").done(),
            Finding::LoneSecondary => Text::of("a secondary entry appearing on its own: it belongs to an entry set whose 0x85 primary is missing or was overwritten").done(),
            Finding::SetIntact => Text::of("the set checksum matches once the InUse bits are restored: nothing but those bits was changed, so the record is intact").done(),
            Finding::SetOverwritten => Text::of("the set checksum does not match even with the InUse bits restored: part of this record was overwritten after it was deleted").done(),
            Finding::SetDeleted { primary, second, third } => Text::of("deleted: the type bytes are ").hex(primary as u64, 2).lit("/").hex(second as u64, 2).lit("/").hex(third as u64, 2).lit("... where a live set would be 0x85/0xC0/0xC1").done(),
            Finding::MixedUse => Text::of("the records in this set do not agree about whether they are in use").done(),
            Finding::SetTruncated { declared, available } => Text::of("secondary_count says ").dec(declared).lit(" but only ").dec(available).lit(" entries remain in this directory; the set is truncated").done(),
            Finding::TooFewSecondaries { declared } => Text::of("secondary_count is ").dec(declared).lit("; every file needs at least a stream extension and one file name entry").done(),
            Finding::NoStream => Text::of("the set has no 0xC0 stream extension, so its size and first cluster are unknown").done(),
            Finding::NameEntries { name_length, needed, entries } => Text::of("name_length ").dec(name_length).lit(" needs ").dec(needed).lit(" file name entries, but the set has ").dec(entries).done(),
            Finding::NameResidue => Text::of("the file name entries hold non-zero code units past name_length").done(),
            Finding::NameHash { stored, computed } => Text::of("name_hash is ").hex(stored, 4).lit(" but the assembled name hashes to ").hex(computed, 4).done(),
            Finding::NameHashUnverified => Text::of("name_hash not verified: the name contains code units outside ASCII and hashing them needs the volume's up-case table, which this build does not expand").done(),
            Finding::ValidPastLength { valid, length } => Text::of("valid_data_length ").dec(valid).lit(" exceeds data_length ").dec(length).done(),
            Finding::UnwrittenTail { bytes } => Text::of("").dec(bytes).lit(" bytes of the allocation past valid_data_length were never written").done(),
            Finding::AllocationImpossible => Text::of("AllocationPossible is clear, so first_cluster and data_length must both be zero, and they are not").done(),
            Finding::SetChecksumMismatch { stored, computed } => Text::of("stored ").hex(stored, 4).lit(", computed ").hex(computed, 4).done(),
            Finding::DeletedSetChecksum { stored, computed } => Text::of("stored ").hex(stored, 4).lit(", computed ").hex(computed, 4).done(),
            Finding::RunsHighlighted { runs } => Text::of("").dec(runs).lit(" runs, of which the first 64 are highlighted").done(),
            Finding::NestingLimit => Text::of("not expanded: 16 levels of nesting is the limit").done(),
            Finding::DeletedDirectory => Text::of("a deleted directory's clusters are free and may already belong to something else; they are not expanded as a directory").done(),
            Finding::BitmapLength { declared, clusters, need } => Text::of("the entry declares ").dec(declared).lit(" bytes but ").dec(clusters).lit(" clusters need ").dec(need).done(),
            Finding::BitmapUnreadable => Text::of("the bitmap could not be read").done(),
            Finding::PercentDisagrees { boot, bitmap } => Text::of("the boot sector says ").dec(boot).lit("%, the bitmap says ").dec(bitmap).lit("%").done(),
            Finding::ComputedDiffers { stored, computed } => Text::of("stored ").hex(stored, 1).lit(", computed ").hex(computed, 1).done(),
            Finding::CrosscheckOverflow => Text::of("the active FAT's offset overflows").done(),
            Finding::CrosscheckUnreadable => Text::of("the FAT could not be read, so no comparison was made").done(),
            Finding::ChainedButFree => Text::of("clusters with a FAT entry are marked free in the bitmap").done(),
            Finding::AllocatedWithoutChain { count } => Text::of("").dec(count).lit(" cluster(s) are allocated with a zero FAT entry, which is the normal state for a contiguous (NoFatChain) file").done(),
            Finding::BitmapAgrees { compared } => Text::of("the bitmap and the FAT agree over the first ").dec(compared).lit(" clusters").done(),
            Finding::UpcaseTooLong { declared } => Text::of("the table declares ").dec(declared).lit(" bytes, more than the 262144 this build will read, so its checksum was not verified").done(),
            Finding::UpcaseMismatch { stored, computed } => Text::of("the 0x82 entry stores ").hex(stored, 8).lit(" but the table hashes to ").hex(computed, 8).done(),
            Finding::UpcaseMatches => Text::of("the table matches the checksum in its directory entry").done(),
            Finding::UpcaseShort { have, declared } => Text::of("only ").dec(have).lit(" of ").dec(declared).lit(" table bytes were readable, so the checksum was not verified").done(),
            Finding::EmptyTable => Text::of("the table decoded to no mappings").done(),
        }
    }

    /// What it means for the reader, where there is something to add.
    pub open spec fn advice(self) -> Option<Seq<char>> {
        match self {
            Finding::SectorShift { fallback, .. } => Some("every offset below is computed with the device's "@ + text::dec(fallback as int) + "-byte sectors instead, and is a guess"@),
            Finding::ClusterSize { .. } => Some("cluster addresses below fall back to one sector per cluster"@),
            Finding::NoBitmapEntry => Some("the specification requires one; without it nothing knows which clusters are in use"@),
            Finding::GeometryUnusable => Some("the boot region above is still shown in full"@),
            Finding::RecordUnreadable { .. } => Some("this is an I/O error, not zeroed data"@),
            Finding::ReservedSectorDirty => Some("undocumented data, or residue from whatever was here before"@),
            Finding::ChecksumUnreadable => Some("this is an I/O error, not zeroed data"@),
            Finding::BootChecksum { .. } => Some("the boot region was modified without updating sector 11"@),
            Finding::RepetitionsDiffer { .. } => Some("sector 11 was written partially; treat the first copy as unverified"@),
            Finding::BootFieldDrifts => Some("this field is excluded from the boot checksum and a driver rewrites it on mount, so the two regions legitimately drift here"@),
            Finding::BootFieldDiffers => Some("the two copies of the boot sector disagree about the volume's geometry"@),
            Finding::PartitionOffsetUnset { .. } => Some("mkfs.exfat run on a plain file and then copied into a partition leaves it zero, which is legal"@),
            Finding::PartitionOffsetMoved { .. } => Some("the volume was moved, or the partition table and the volume disagree"@),
            Finding::VolumeDirty => Some("metadata below may be mid-update and internally inconsistent"@),
            Finding::ChainLoops { .. } => Some("traversal stopped; the clusters listed so far are real"@),
            Finding::ChainUnreadable { .. } => Some("the chain beyond this point is unknown, not empty"@),
            Finding::RunUnreadable { .. } => Some("this run and everything after it is missing from the data below, and is not zeros"@),
            Finding::RunShort { .. } => Some("the rest of this run, and every run after it, is not shown"@),
            Finding::ResidueSurvives { .. } => Some("this is unallocated space that still holds records; it is the first place to look for what a delete left behind"@),
            Finding::ResidueRecord { .. } => Some("unallocated directory space that was never overwritten"@),
            Finding::EntryDeleted { .. } => Some("deleting this record changed one bit; every other byte below is the original content"@),
            Finding::SetIntact => Some("the name, size and first cluster below are the original values"@),
            Finding::SetDeleted { .. } => Some("a delete clears one bit per record and nothing else; the filename above is still on the disk"@),
            Finding::MixedUse => Some("a set that was partly rewritten: one record was reused while its neighbours were not"@),
            Finding::NameResidue => Some("padding from a longer name this slot held before"@),
            Finding::UnwrittenTail { .. } => Some("allocated but unwritten space still holds whatever was there before"@),
            Finding::SetChecksumMismatch { .. } => Some("the entry set was modified without updating its checksum"@),
            Finding::DeletedSetChecksum { .. } => Some("a deleted record whose checksum does not come back even with the InUse bits restored: something overwrote part of it"@),
            Finding::DeletedDirectory => Some("the byte range is still shown, so the hex pane can be pointed at it"@),
            Finding::PercentDisagrees { .. } => Some("percent_in_use is advisory and rounded; a small difference is normal"@),
            Finding::ChainedButFree => Some("a chain through unallocated space: either the bitmap is stale or the chain is a remnant"@),
            _ => None,
        }
    }

    /// What it means for the reader, where there is something to add.
    pub fn hint(&self) -> (r: Option<String>)
        ensures
            match r {
                Some(s) => self.advice() == Some(s@),
                None => self.advice() is None,
            },
    {
        match *self {
            Finding::SectorShift { fallback, .. } => Some(Text::of("every offset below is computed with the device's ").dec(fallback as u64).lit("-byte sectors instead, and is a guess").done()),
            Finding::ClusterSize { .. } => Some(Text::of("cluster addresses below fall back to one sector per cluster").done()),
            Finding::NoBitmapEntry => Some(Text::of("the specification requires one; without it nothing knows which clusters are in use").done()),
            Finding::GeometryUnusable => Some(Text::of("the boot region above is still shown in full").done()),
            Finding::RecordUnreadable { .. } => Some(Text::of("this is an I/O error, not zeroed data").done()),
            Finding::ReservedSectorDirty => Some(Text::of("undocumented data, or residue from whatever was here before").done()),
            Finding::ChecksumUnreadable => Some(Text::of("this is an I/O error, not zeroed data").done()),
            Finding::BootChecksum { .. } => Some(Text::of("the boot region was modified without updating sector 11").done()),
            Finding::RepetitionsDiffer { .. } => Some(Text::of("sector 11 was written partially; treat the first copy as unverified").done()),
            Finding::BootFieldDrifts => Some(Text::of("this field is excluded from the boot checksum and a driver rewrites it on mount, so the two regions legitimately drift here").done()),
            Finding::BootFieldDiffers => Some(Text::of("the two copies of the boot sector disagree about the volume's geometry").done()),
            Finding::PartitionOffsetUnset { .. } => Some(Text::of("mkfs.exfat run on a plain file and then copied into a partition leaves it zero, which is legal").done()),
            Finding::PartitionOffsetMoved { .. } => Some(Text::of("the volume was moved, or the partition table and the volume disagree").done()),
            Finding::VolumeDirty => Some(Text::of("metadata below may be mid-update and internally inconsistent").done()),
            Finding::ChainLoops { .. } => Some(Text::of("traversal stopped; the clusters listed so far are real").done()),
            Finding::ChainUnreadable { .. } => Some(Text::of("the chain beyond this point is unknown, not empty").done()),
            Finding::RunUnreadable { .. } => Some(Text::of("this run and everything after it is missing from the data below, and is not zeros").done()),
            Finding::RunShort { .. } => Some(Text::of("the rest of this run, and every run after it, is not shown").done()),
            Finding::ResidueSurvives { .. } => Some(Text::of("this is unallocated space that still holds records; it is the first place to look for what a delete left behind").done()),
            Finding::ResidueRecord { .. } => Some(Text::of("unallocated directory space that was never overwritten").done()),
            Finding::EntryDeleted { .. } => Some(Text::of("deleting this record changed one bit; every other byte below is the original content").done()),
            Finding::SetIntact => Some(Text::of("the name, size and first cluster below are the original values").done()),
            Finding::SetDeleted { .. } => Some(Text::of("a delete clears one bit per record and nothing else; the filename above is still on the disk").done()),
            Finding::MixedUse => Some(Text::of("a set that was partly rewritten: one record was reused while its neighbours were not").done()),
            Finding::NameResidue => Some(Text::of("padding from a longer name this slot held before").done()),
            Finding::UnwrittenTail { .. } => Some(Text::of("allocated but unwritten space still holds whatever was there before").done()),
            Finding::SetChecksumMismatch { .. } => Some(Text::of("the entry set was modified without updating its checksum").done()),
            Finding::DeletedSetChecksum { .. } => Some(Text::of("a deleted record whose checksum does not come back even with the InUse bits restored: something overwrote part of it").done()),
            Finding::DeletedDirectory => Some(Text::of("the byte range is still shown, so the hex pane can be pointed at it").done()),
            Finding::PercentDisagrees { .. } => Some(Text::of("percent_in_use is advisory and rounded; a small difference is normal").done()),
            Finding::ChainedButFree => Some(Text::of("a chain through unallocated space: either the bitmap is stale or the chain is a remnant").done()),
            _ => None,
        }
    }

}

} // verus!
