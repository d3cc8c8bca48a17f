//! What reading a FAT volume can turn up.

use crate::fat::kind;
use crate::fat::kind::FatKind;
use crate::status::Status;
use crate::text;
use crate::text::Text;
use vstd::prelude::*;

verus! {

/// Something worth telling about a FAT volume.
#[derive(Clone, Copy, Debug, PartialEq, Eq, Structural)]
pub enum Finding {
    SectorSize { bytes_per_sector: u64 },
    ClusterSize { sectors_per_cluster: u64 },
    BothTotals { total_16: u64, total_32: u64 },
    NoFatSize,
    NoVolumeSize,
    NoDataRegion { total: u64, fats: u64, meta: u64 },
    NoCluster,
    LayoutOverflow,
    FatSizeBoth { size_16: u64, clusters: u64, size_32: u64 },
    RootEntriesSet { root_entries: u64, clusters: u64 },
    RootEntriesZero { clusters: u64, kind: FatKind },
    VolumePast16 { total: u64, over: u64, lost: u64 },
    VolumePast32 { total: u64, over: u64, lost: u64 },
    VolumeEndOverflow,
    MediaMismatch { media: u64, first: u64 },
    FsTypeLies { stored: u64, clusters: u64, kind: FatKind },
    RootClusterOutside { cluster: u64, last: u64 },
    MirroringOff { live: u64, stale: u64 },
    NoBackupSector,
    SignatureWrong { low: u64, high: u64 },
    SignatureMissing,
    FsInfoOverflow,
    FreeCountHigh { free: u64, clusters: u64 },
    NextFreeOutside { cluster: u64, last: u64 },
    BackupNone,
    BackupOverflow,
    BackupDiffers { offset: u64 },
    BackupSame,
    ContentsUnlocated,
    OneFat,
    EntryUnreadable { cluster: u64, at: u64 },
    MediaEntry { media: u64 },
    SecondEntry,
    VolumeDirty,
    FreeEntry,
    BadEntry { cluster: u64 },
    EndEntry,
    EntryOutside { value: u32, last: u64 },
    FatBytesOverflow,
    FatPast,
    CompareStopped { scanned: u64 },
    TablesAgree { bytes: u64 },
    TablesAgreeSoFar { scanned: u64, bytes: u64 },
    ByteDiffers { a: u64, byte_a: u8, b: u64, byte_b: u8 },
    TablesDisagree { count: u64, scanned: u64 },
    TablesDisagreeAtLeast { count: u64, scanned: u64 },
    RootOutside { cluster: u64 },
    NoExtent,
    DirectoryUnreadable,
    EndMarker,
    Residue,
    /// The fragment itself says what it spells.
    Orphan,
    Deleted,
    PastEnd,
    SequenceLost,
    NoLastBit,
    SplicedRun,
    SumRestorable { stored_sum: u8, computed_sum: u8, byte: u8 },
    SumDestroyed { stored_sum: u8, computed_sum: u8 },
    SumAlien { stored_sum: u8, computed_sum: u8 },
    /// The entry itself says the name.
    LongNameSurvives,
    FirstCharacter { byte: u8, stored_sum: u8 },
    /// The entry itself says which name and which sums.
    AlienLongName,
    ClusterOutside { cluster: u64, last: u64 },
    ChainReleased { cluster: u64 },
    ChainKept { cluster: u64, value: u32 },
    ChainUnknown { cluster: u64 },
    LabelWithCluster,
    ChainEnds { value: u32 },
    ChainBad { cluster: u64 },
    ChainFree { cluster: u64 },
    ChainOutside { cluster: u64, last: u64 },
    ChainLoops { cluster: u64 },
    ChainTruncated,
    ChainUnreadable { cluster: u64 },
}

/// The findings that hold when `cond` does: one, or none.
pub open spec fn when(cond: bool, f: Finding) -> Seq<Finding> {
    if cond {
        seq![f]
    } else {
        Seq::empty()
    }
}

/// Record `f` when `cond` holds.
pub fn note(out: &mut Vec<Finding>, cond: bool, f: Finding)
    ensures
        final(out)@ == old(out)@ + when(cond, f),
{
    if cond {
        out.push(f);
    }
    assert(out@ =~= old(out)@ + when(cond, f));
}

/// The most serious of a list of findings.
pub open spec fn worst(findings: Seq<Finding>) -> Status
    decreases findings.len(),
{
    if findings.len() == 0 {
        Status::Clean
    } else {
        worst(findings.drop_last()).worse(findings.last().severity())
    }
}

/// The most serious of a list of findings.
pub fn worst_of(findings: &[Finding]) -> (r: Status)
    ensures
        r == worst(findings@),
{
    let mut r = Status::Clean;
    let mut i: usize = 0;
    while i < findings.len()
        invariant
            i <= findings@.len(),
            r == worst(findings@.take(i as int)),
        decreases findings@.len() - i,
    {
        assert(findings@.take(i + 1).drop_last() =~= findings@.take(i as int));
        r = r.merge(findings[i].status());
        i += 1;
    }
    assert(findings@.take(i as int) =~= findings@);
    r
}

impl Finding {
    /// How serious this finding is.
    pub open spec fn severity(self) -> Status {
        match self {
            Finding::SectorSize { .. }
            | Finding::ClusterSize { .. }
            | Finding::NoFatSize
            | Finding::NoVolumeSize
            | Finding::NoDataRegion { .. }
            | Finding::NoCluster
            | Finding::LayoutOverflow
            | Finding::RootEntriesZero { .. }
            | Finding::VolumePast16 { .. }
            | Finding::VolumePast32 { .. }
            | Finding::VolumeEndOverflow
            | Finding::RootClusterOutside { .. }
            | Finding::SignatureWrong { .. }
            | Finding::SignatureMissing
            | Finding::FsInfoOverflow
            | Finding::BackupOverflow
            | Finding::ContentsUnlocated
            | Finding::EntryOutside { .. }
            | Finding::FatBytesOverflow
            | Finding::FatPast
            | Finding::TablesDisagree { .. }
            | Finding::TablesDisagreeAtLeast { .. }
            | Finding::RootOutside { .. }
            | Finding::NoExtent
            | Finding::ClusterOutside { .. }
            | Finding::ChainOutside { .. }
            | Finding::ChainLoops { .. } => Status::Bad,
            Finding::BothTotals { .. }
            | Finding::FatSizeBoth { .. }
            | Finding::RootEntriesSet { .. }
            | Finding::MediaMismatch { .. }
            | Finding::FsTypeLies { .. }
            | Finding::NoBackupSector
            | Finding::FreeCountHigh { .. }
            | Finding::NextFreeOutside { .. }
            | Finding::BackupNone
            | Finding::BackupDiffers { .. }
            | Finding::VolumeDirty
            | Finding::BadEntry { .. }
            | Finding::ByteDiffers { .. }
            | Finding::NoLastBit
            | Finding::SplicedRun
            | Finding::SumAlien { .. }
            | Finding::AlienLongName
            | Finding::ChainUnknown { .. }
            | Finding::LabelWithCluster
            | Finding::ChainBad { .. }
            | Finding::ChainFree { .. }
            | Finding::ChainTruncated => Status::Warn,
            Finding::MirroringOff { .. }
            | Finding::BackupSame
            | Finding::OneFat
            | Finding::MediaEntry { .. }
            | Finding::SecondEntry
            | Finding::FreeEntry
            | Finding::EndEntry
            | Finding::TablesAgree { .. }
            | Finding::TablesAgreeSoFar { .. }
            | Finding::EndMarker
            | Finding::Residue
            | Finding::Orphan
            | Finding::Deleted
            | Finding::PastEnd
            | Finding::SequenceLost
            | Finding::SumRestorable { .. }
            | Finding::SumDestroyed { .. }
            | Finding::LongNameSurvives
            | Finding::FirstCharacter { .. }
            | Finding::ChainReleased { .. }
            | Finding::ChainKept { .. }
            | Finding::ChainEnds { .. } => Status::Info,
            Finding::EntryUnreadable { .. }
            | Finding::CompareStopped { .. }
            | Finding::DirectoryUnreadable
            | Finding::ChainUnreadable { .. } => Status::Unreadable,
        }
    }

    /// How serious this finding is.
    pub fn status(&self) -> (r: Status)
        ensures
            r == self.severity(),
    {
        match *self {
            Finding::SectorSize { .. }
            | Finding::ClusterSize { .. }
            | Finding::NoFatSize
            | Finding::NoVolumeSize
            | Finding::NoDataRegion { .. }
            | Finding::NoCluster
            | Finding::LayoutOverflow
            | Finding::RootEntriesZero { .. }
            | Finding::VolumePast16 { .. }
            | Finding::VolumePast32 { .. }
            | Finding::VolumeEndOverflow
            | Finding::RootClusterOutside { .. }
            | Finding::SignatureWrong { .. }
            | Finding::SignatureMissing
            | Finding::FsInfoOverflow
            | Finding::BackupOverflow
            | Finding::ContentsUnlocated
            | Finding::EntryOutside { .. }
            | Finding::FatBytesOverflow
            | Finding::FatPast
            | Finding::TablesDisagree { .. }
            | Finding::TablesDisagreeAtLeast { .. }
            | Finding::RootOutside { .. }
            | Finding::NoExtent
            | Finding::ClusterOutside { .. }
            | Finding::ChainOutside { .. }
            | Finding::ChainLoops { .. } => Status::Bad,
            Finding::BothTotals { .. }
            | Finding::FatSizeBoth { .. }
            | Finding::RootEntriesSet { .. }
            | Finding::MediaMismatch { .. }
            | Finding::FsTypeLies { .. }
            | Finding::NoBackupSector
            | Finding::FreeCountHigh { .. }
            | Finding::NextFreeOutside { .. }
            | Finding::BackupNone
            | Finding::BackupDiffers { .. }
            | Finding::VolumeDirty
            | Finding::BadEntry { .. }
            | Finding::ByteDiffers { .. }
            | Finding::NoLastBit
            | Finding::SplicedRun
            | Finding::SumAlien { .. }
            | Finding::AlienLongName
            | Finding::ChainUnknown { .. }
            | Finding::LabelWithCluster
            | Finding::ChainBad { .. }
            | Finding::ChainFree { .. }
            | Finding::ChainTruncated => Status::Warn,
            Finding::MirroringOff { .. }
            | Finding::BackupSame
            | Finding::OneFat
            | Finding::MediaEntry { .. }
            | Finding::SecondEntry
            | Finding::FreeEntry
            | Finding::EndEntry
            | Finding::TablesAgree { .. }
            | Finding::TablesAgreeSoFar { .. }
            | Finding::EndMarker
            | Finding::Residue
            | Finding::Orphan
            | Finding::Deleted
            | Finding::PastEnd
            | Finding::SequenceLost
            | Finding::SumRestorable { .. }
            | Finding::SumDestroyed { .. }
            | Finding::LongNameSurvives
            | Finding::FirstCharacter { .. }
            | Finding::ChainReleased { .. }
            | Finding::ChainKept { .. }
            | Finding::ChainEnds { .. } => Status::Info,
            Finding::EntryUnreadable { .. }
            | Finding::CompareStopped { .. }
            | Finding::DirectoryUnreadable
            | Finding::ChainUnreadable { .. } => Status::Unreadable,
        }
    }

    /// The record field this finding is about, where it is about one.
    pub open spec fn about(self) -> Option<Seq<char>> {
        match self {
            Finding::SectorSize { .. } => Some("bytes_per_sector"@),
            Finding::ClusterSize { .. }
            | Finding::NoCluster => Some("sectors_per_cluster"@),
            Finding::BothTotals { .. }
            | Finding::NoVolumeSize
            | Finding::VolumePast16 { .. } => Some("total_sectors_16"@),
            Finding::NoFatSize
            | Finding::FatSizeBoth { .. } => Some("fat_size_16"@),
            Finding::NoDataRegion { .. }
            | Finding::LayoutOverflow
            | Finding::VolumePast32 { .. }
            | Finding::VolumeEndOverflow => Some("total_sectors_32"@),
            Finding::RootEntriesSet { .. }
            | Finding::RootEntriesZero { .. } => Some("root_entries"@),
            Finding::MediaMismatch { .. } => Some("media"@),
            Finding::FsTypeLies { .. } => Some("fs_type"@),
            Finding::RootClusterOutside { .. } => Some("root_cluster"@),
            Finding::MirroringOff { .. } => Some("ext_flags"@),
            Finding::NoBackupSector => Some("backup_boot_sector"@),
            Finding::SignatureWrong { .. }
            | Finding::SignatureMissing => Some("boot_signature"@),
            Finding::FreeCountHigh { .. } => Some("free_count"@),
            Finding::NextFreeOutside { .. } => Some("next_free"@),
            Finding::SumRestorable { .. }
            | Finding::SumDestroyed { .. }
            | Finding::SumAlien { .. } => Some("checksum"@),
            Finding::ClusterOutside { .. }
            | Finding::ChainReleased { .. }
            | Finding::ChainKept { .. }
            | Finding::ChainUnknown { .. } => Some("first_cluster"@),
            _ => None,
        }
    }

    /// The record field this finding is about, where it is about one.
    pub fn field(&self) -> (r: Option<&'static str>)
        ensures
            match r {
                Some(s) => self.about() == Some(s@),
                None => self.about() is None,
            },
    {
        match *self {
            Finding::SectorSize { .. } => Some("bytes_per_sector"),
            Finding::ClusterSize { .. }
            | Finding::NoCluster => Some("sectors_per_cluster"),
            Finding::BothTotals { .. }
            | Finding::NoVolumeSize
            | Finding::VolumePast16 { .. } => Some("total_sectors_16"),
            Finding::NoFatSize
            | Finding::FatSizeBoth { .. } => Some("fat_size_16"),
            Finding::NoDataRegion { .. }
            | Finding::LayoutOverflow
            | Finding::VolumePast32 { .. }
            | Finding::VolumeEndOverflow => Some("total_sectors_32"),
            Finding::RootEntriesSet { .. }
            | Finding::RootEntriesZero { .. } => Some("root_entries"),
            Finding::MediaMismatch { .. } => Some("media"),
            Finding::FsTypeLies { .. } => Some("fs_type"),
            Finding::RootClusterOutside { .. } => Some("root_cluster"),
            Finding::MirroringOff { .. } => Some("ext_flags"),
            Finding::NoBackupSector => Some("backup_boot_sector"),
            Finding::SignatureWrong { .. }
            | Finding::SignatureMissing => Some("boot_signature"),
            Finding::FreeCountHigh { .. } => Some("free_count"),
            Finding::NextFreeOutside { .. } => Some("next_free"),
            Finding::SumRestorable { .. }
            | Finding::SumDestroyed { .. }
            | Finding::SumAlien { .. } => Some("checksum"),
            Finding::ClusterOutside { .. }
            | Finding::ChainReleased { .. }
            | Finding::ChainKept { .. }
            | Finding::ChainUnknown { .. } => Some("first_cluster"),
            _ => None,
        }
    }

    /// What was found, in words.
    pub open spec fn text(self) -> Seq<char> {
        match self {
            Finding::SectorSize { bytes_per_sector } => ""@ + text::dec(bytes_per_sector as int) + " is not a supported sector size; nothing in this volume can be located"@,
            Finding::ClusterSize { sectors_per_cluster } => ""@ + text::dec(sectors_per_cluster as int) + " is not a power of two in 1..=128; the cluster size is unusable"@,
            Finding::BothTotals { total_16, total_32 } => "both total_sectors_16 ("@ + text::dec(total_16 as int) + ") and total_sectors_32 ("@ + text::dec(total_32 as int) + ") are set; the 16-bit field wins and the 32-bit one is ignored"@,
            Finding::NoFatSize => "no FAT size in either field; there is no allocation table to follow"@,
            Finding::NoVolumeSize => "no volume size in either field; the volume has no extent"@,
            Finding::NoDataRegion { total, fats, meta } => "the volume declares "@ + text::dec(total as int) + " sectors but its reserved area, "@ + text::dec(fats as int) + " FATs and root directory already need "@ + text::dec(meta as int) + "; there is no data region"@,
            Finding::NoCluster => "the data region holds no whole cluster"@,
            Finding::LayoutOverflow => "the volume layout overflows a 64-bit byte offset"@,
            Finding::FatSizeBoth { size_16, clusters, size_32 } => "fat_size_16 is "@ + text::dec(size_16 as int) + ", but "@ + text::dec(clusters as int) + " clusters makes this FAT32, whose FAT size must come from fat_size_32 ("@ + text::dec(size_32 as int) + ") with this field left at zero (fatgen §3.1)"@,
            Finding::RootEntriesSet { root_entries, clusters } => "root_entries is "@ + text::dec(root_entries as int) + ", but a volume with "@ + text::dec(clusters as int) + " clusters is FAT32, whose root directory is a cluster chain and has no fixed size"@,
            Finding::RootEntriesZero { clusters, kind } => "root_entries is zero, but "@ + text::dec(clusters as int) + " clusters makes this "@ + kind::kind_name(kind)@ + " — whose root directory is the fixed area this field sizes"@,
            Finding::VolumePast16 { total, over, lost } => "the volume claims "@ + text::dec(total as int) + " sectors, which ends "@ + text::dec(over as int) + " bytes past the end of the device; the last "@ + text::dec(lost as int) + " sectors cannot exist"@,
            Finding::VolumePast32 { total, over, lost } => "the volume claims "@ + text::dec(total as int) + " sectors, which ends "@ + text::dec(over as int) + " bytes past the end of the device; the last "@ + text::dec(lost as int) + " sectors cannot exist"@,
            Finding::VolumeEndOverflow => "volume start + size overflows a 64-bit byte offset"@,
            Finding::MediaMismatch { media, first } => "media byte is "@ + text::hex(media as int, 2) + " but FAT[0] starts "@ + text::hex(first as int, 2) + "; the one consistency check the allocation table carries does not hold"@,
            Finding::FsTypeLies { stored, clusters, kind } => "fs_type says \""@ + text::packed_ascii(stored) + "\" but "@ + text::dec(clusters as int) + " clusters makes this "@ + kind::kind_name(kind)@ + "; the string is documentation and the cluster count is the determination (fatgen §4)"@,
            Finding::RootClusterOutside { cluster, last } => "root cluster "@ + text::dec(cluster as int) + " is outside 2..="@ + text::dec(last as int) + "; the root directory cannot be found"@,
            Finding::MirroringOff { live, stale } => "mirroring is disabled: only FAT #"@ + text::dec(live as int) + " is live and the other "@ + text::dec(stale as int) + " copies are stale by design"@,
            Finding::NoBackupSector => "no backup boot sector: if this sector is damaged the volume's geometry is unrecoverable"@,
            Finding::SignatureWrong { low, high } => "expected 55 AA, found "@ + text::hex_bare(low as int, 2) + " "@ + text::hex_bare(high as int, 2),
            Finding::SignatureMissing => "expected 55 AA, found "@,
            Finding::FsInfoOverflow => "the FSInfo sector number overflows a byte offset"@,
            Finding::FreeCountHigh { free, clusters } => ""@ + text::dec(free as int) + " free clusters claimed but the volume only has "@ + text::dec(clusters as int) + "; the hint is stale or the volume was resized"@,
            Finding::NextFreeOutside { cluster, last } => "next free cluster "@ + text::dec(cluster as int) + " is outside 2..="@ + text::dec(last as int),
            Finding::BackupNone => "backup_boot_sector is zero: there is no backup copy"@,
            Finding::BackupOverflow => "the backup sector number overflows a byte offset"@,
            Finding::BackupDiffers { offset } => "the backup differs from the primary boot sector, first at offset "@ + text::hex_small(offset as int, 1) + " within the sector"@,
            Finding::BackupSame => "identical to the primary boot sector through the EBPB"@,
            Finding::ContentsUnlocated => "the BPB does not describe a usable volume, so the FATs, the root directory and the data region cannot be located"@,
            Finding::OneFat => "only one FAT: nothing to compare, and no redundancy if it is damaged"@,
            Finding::EntryUnreadable { cluster, at } => "FAT entry "@ + text::dec(cluster as int) + " at "@ + text::hex(at as int, 10) + " could not be read"@,
            Finding::MediaEntry { media } => "FAT[0]: the low byte is the media descriptor ("@ + text::hex(media as int, 2) + "), the rest is all ones"@,
            Finding::SecondEntry => "FAT[1]: end-of-chain marker. On FAT32 bit 27 clear means the volume was not unmounted cleanly and bit 26 clear means a hard error was recorded."@,
            Finding::VolumeDirty => "dirty bit is clear: the volume was not cleanly unmounted"@,
            Finding::FreeEntry => "free"@,
            Finding::BadEntry { cluster } => "cluster "@ + text::dec(cluster as int) + " is marked bad"@,
            Finding::EndEntry => "end of chain"@,
            Finding::EntryOutside { value, last } => "points at cluster "@ + text::dec(value as int) + ", outside 2..="@ + text::dec(last as int),
            Finding::FatBytesOverflow => "FAT size overflows a byte count"@,
            Finding::FatPast => "a FAT lies past a 64-bit byte offset"@,
            Finding::CompareStopped { scanned } => "comparison stopped at "@ + text::hex_small(scanned as int, 1) + " bytes: the device refused a read"@,
            Finding::TablesAgree { bytes } => "the two tables agree: all "@ + text::dec(bytes as int) + " bytes identical"@,
            Finding::TablesAgreeSoFar { scanned, bytes } => "the two tables agree: first "@ + text::dec(scanned as int) + " of "@ + text::dec(bytes as int) + " bytes identical"@,
            Finding::ByteDiffers { a, byte_a, b, byte_b } => "FAT #"@ + text::dec(a as int) + " holds "@ + text::hex(byte_a as int, 2) + ", FAT #"@ + text::dec(b as int) + " holds "@ + text::hex(byte_b as int, 2),
            Finding::TablesDisagree { count, scanned } => "the allocation tables disagree: "@ + text::dec(count as int) + " differing bytes found in the first "@ + text::dec(scanned as int) + " compared"@,
            Finding::TablesDisagreeAtLeast { count, scanned } => "the allocation tables disagree: "@ + text::dec(count as int) + " differing bytes found in the first "@ + text::dec(scanned as int) + " compared, reporting stopped there"@,
            Finding::RootOutside { cluster } => "root cluster "@ + text::dec(cluster as int) + " is outside the data region"@,
            Finding::NoExtent => "this directory's cluster chain resolves to nothing readable"@,
            Finding::DirectoryUnreadable => "part of this directory could not be read"@,
            Finding::EndMarker => "a driver stops here; everything listed after this point is what the directory used to contain"@,
            Finding::Residue => "marked never-used (first byte 0x00) but the remaining 31 bytes are not zero: a directory entry that was overwritten rather than erased"@,
            Finding::Orphan => "long-filename fragment with no 8.3 entry after it"@,
            Finding::Deleted => "deleted: the first character of the name has been overwritten with 0xE5 and cannot be recovered from this entry alone"@,
            Finding::PastEnd => "this entry lies past the directory's end-of-directory marker, so no driver will list it"@,
            Finding::SequenceLost => "the sequence number has been overwritten with 0xE5 by the delete; only the fragment's position on disk still says where it belongs in the name"@,
            Finding::NoLastBit => "the first fragment on disk should carry the 0x40 last-entry bit; without it the run is incomplete and the name may be missing its tail"@,
            Finding::SplicedRun => "the 0x40 last-entry bit appears in the middle of a run: two runs have been spliced together"@,
            Finding::SumRestorable { stored_sum, computed_sum, byte } => "stored "@ + text::hex(stored_sum as int, 2) + ", computed "@ + text::hex(computed_sum as int, 2) + " — as expected, because the 8.3 name's first byte is the 0xE5 deletion mark. It checksums correctly with "@ + text::quoted_char(byte) + " restored."@,
            Finding::SumDestroyed { stored_sum, computed_sum } => "stored "@ + text::hex(stored_sum as int, 2) + ", computed "@ + text::hex(computed_sum as int, 2) + ": the 8.3 name's first byte was destroyed by the delete, so the two cannot agree"@,
            Finding::SumAlien { stored_sum, computed_sum } => "stored "@ + text::hex(stored_sum as int, 2) + ", computed "@ + text::hex(computed_sum as int, 2) + ": this fragment does not belong to the 8.3 entry after it"@,
            Finding::LongNameSurvives => "the long-filename fragments of a deleted file survive in full, so the name is recoverable even though the 8.3 entry's first character is not"@,
            Finding::FirstCharacter { byte, stored_sum } => "the destroyed 8.3 first character was "@ + text::quoted_char(byte) + ": it is the only byte for which the stored long-name checksum "@ + text::hex(stored_sum as int, 2) + " comes out right"@,
            Finding::AlienLongName => "the long name does not belong to this 8.3 entry"@,
            Finding::ClusterOutside { cluster, last } => "cluster "@ + text::dec(cluster as int) + " is outside 2..="@ + text::dec(last as int) + "; this entry points nowhere"@,
            Finding::ChainReleased { cluster } => "the FAT entry for cluster "@ + text::dec(cluster as int) + " reads free: the chain was released by the delete, so only the first cluster's location is still known"@,
            Finding::ChainKept { cluster, value } => "the FAT entry for cluster "@ + text::dec(cluster as int) + " still reads "@ + text::hex(value as int, 1) + ": the chain was not cleared, so it may be followable"@,
            Finding::ChainUnknown { cluster } => "the FAT entry for cluster "@ + text::dec(cluster as int) + " is unreadable"@,
            Finding::LabelWithCluster => "an ATTR_VOLUME_ID entry must have first_cluster zero; a non-zero value is either residue or a deliberate hiding place"@,
            Finding::ChainEnds { value } => "ended cleanly at an end-of-chain marker "@ + text::hex(value as int, 1),
            Finding::ChainBad { cluster } => "cluster "@ + text::dec(cluster as int) + " is marked bad; the rest of the chain cannot be reached"@,
            Finding::ChainFree { cluster } => "the FAT entry after cluster "@ + text::dec(cluster as int) + " reads free: the chain was truncated, which is what deleting a file does"@,
            Finding::ChainOutside { cluster, last } => "next cluster "@ + text::dec(cluster as int) + " is outside 2..="@ + text::dec(last as int),
            Finding::ChainLoops { cluster } => "the chain returns to cluster "@ + text::dec(cluster as int) + ", which it has already used; traversal stopped rather than looping"@,
            Finding::ChainTruncated => "traversal limit reached before the chain ended"@,
            Finding::ChainUnreadable { cluster } => "the FAT entry for cluster "@ + text::dec(cluster as int) + " could not be read"@,
        }
    }

    /// What was found, in words.
    pub fn message(&self) -> (r: String)
        ensures
            r@ == self.text(),
    {
        match *self {
            Finding::SectorSize { bytes_per_sector } => Text::of("").dec(bytes_per_sector).lit(" is not a supported sector size; nothing in this volume can be located").done(),
            Finding::ClusterSize { sectors_per_cluster } => Text::of("").dec(sectors_per_cluster).lit(" is not a power of two in 1..=128; the cluster size is unusable").done(),
            Finding::BothTotals { total_16, total_32 } => Text::of("both total_sectors_16 (").dec(total_16).lit(") and total_sectors_32 (").dec(total_32).lit(") are set; the 16-bit field wins and the 32-bit one is ignored").done(),
            Finding::NoFatSize => Text::of("no FAT size in either field; there is no allocation table to follow").done(),
            Finding::NoVolumeSize => Text::of("no volume size in either field; the volume has no extent").done(),
            Finding::NoDataRegion { total, fats, meta } => Text::of("the volume declares ").dec(total).lit(" sectors but its reserved area, ").dec(fats).lit(" FATs and root directory already need ").dec(meta).lit("; there is no data region").done(),
            Finding::NoCluster => Text::of("the data region holds no whole cluster").done(),
            Finding::LayoutOverflow => Text::of("the volume layout overflows a 64-bit byte offset").done(),
            Finding::FatSizeBoth { size_16, clusters, size_32 } => Text::of("fat_size_16 is ").dec(size_16).lit(", but ").dec(clusters).lit(" clusters makes this FAT32, whose FAT size must come from fat_size_32 (").dec(size_32).lit(") with this field left at zero (fatgen §3.1)").done(),
            Finding::RootEntriesSet { root_entries, clusters } => Text::of("root_entries is ").dec(root_entries).lit(", but a volume with ").dec(clusters).lit(" clusters is FAT32, whose root directory is a cluster chain and has no fixed size").done(),
            Finding::RootEntriesZero { clusters, kind } => Text::of("root_entries is zero, but ").dec(clusters).lit(" clusters makes this ").lit(kind::kind_label(kind)).lit(" — whose root directory is the fixed area this field sizes").done(),
            Finding::VolumePast16 { total, over, lost } => Text::of("the volume claims ").dec(total).lit(" sectors, which ends ").dec(over).lit(" bytes past the end of the device; the last ").dec(lost).lit(" sectors cannot exist").done(),
            Finding::VolumePast32 { total, over, lost } => Text::of("the volume claims ").dec(total).lit(" sectors, which ends ").dec(over).lit(" bytes past the end of the device; the last ").dec(lost).lit(" sectors cannot exist").done(),
            Finding::VolumeEndOverflow => Text::of("volume start + size overflows a 64-bit byte offset").done(),
            Finding::MediaMismatch { media, first } => Text::of("media byte is ").hex(media, 2).lit(" but FAT[0] starts ").hex(first, 2).lit("; the one consistency check the allocation table carries does not hold").done(),
            Finding::FsTypeLies { stored, clusters, kind } => Text::of("fs_type says \"").packed_ascii(stored).lit("\" but ").dec(clusters).lit(" clusters makes this ").lit(kind::kind_label(kind)).lit("; the string is documentation and the cluster count is the determination (fatgen §4)").done(),
            Finding::RootClusterOutside { cluster, last } => Text::of("root cluster ").dec(cluster).lit(" is outside 2..=").dec(last).lit("; the root directory cannot be found").done(),
            Finding::MirroringOff { live, stale } => Text::of("mirroring is disabled: only FAT #").dec(live).lit(" is live and the other ").dec(stale).lit(" copies are stale by design").done(),
            Finding::NoBackupSector => Text::of("no backup boot sector: if this sector is damaged the volume's geometry is unrecoverable").done(),
            Finding::SignatureWrong { low, high } => Text::of("expected 55 AA, found ").hex_bare(low, 2).lit(" ").hex_bare(high, 2).done(),
            Finding::SignatureMissing => Text::of("expected 55 AA, found ").done(),
            Finding::FsInfoOverflow => Text::of("the FSInfo sector number overflows a byte offset").done(),
            Finding::FreeCountHigh { free, clusters } => Text::of("").dec(free).lit(" free clusters claimed but the volume only has ").dec(clusters).lit("; the hint is stale or the volume was resized").done(),
            Finding::NextFreeOutside { cluster, last } => Text::of("next free cluster ").dec(cluster).lit(" is outside 2..=").dec(last).done(),
            Finding::BackupNone => Text::of("backup_boot_sector is zero: there is no backup copy").done(),
            Finding::BackupOverflow => Text::of("the backup sector number overflows a byte offset").done(),
            Finding::BackupDiffers { offset } => Text::of("the backup differs from the primary boot sector, first at offset ").hex_small(offset, 1).lit(" within the sector").done(),
            Finding::BackupSame => Text::of("identical to the primary boot sector through the EBPB").done(),
            Finding::ContentsUnlocated => Text::of("the BPB does not describe a usable volume, so the FATs, the root directory and the data region cannot be located").done(),
            Finding::OneFat => Text::of("only one FAT: nothing to compare, and no redundancy if it is damaged").done(),
            Finding::EntryUnreadable { cluster, at } => Text::of("FAT entry ").dec(cluster).lit(" at ").hex(at, 10).lit(" could not be read").done(),
            Finding::MediaEntry { media } => Text::of("FAT[0]: the low byte is the media descriptor (").hex(media, 2).lit("), the rest is all ones").done(),
            Finding::SecondEntry => Text::of("FAT[1]: end-of-chain marker. On FAT32 bit 27 clear means the volume was not unmounted cleanly and bit 26 clear means a hard error was recorded.").done(),
            Finding::VolumeDirty => Text::of("dirty bit is clear: the volume was not cleanly unmounted").done(),
            Finding::FreeEntry => Text::of("free").done(),
            Finding::BadEntry { cluster } => Text::of("cluster ").dec(cluster).lit(" is marked bad").done(),
            Finding::EndEntry => Text::of("end of chain").done(),
            Finding::EntryOutside { value, last } => Text::of("points at cluster ").dec(value as u64).lit(", outside 2..=").dec(last).done(),
            Finding::FatBytesOverflow => Text::of("FAT size overflows a byte count").done(),
            Finding::FatPast => Text::of("a FAT lies past a 64-bit byte offset").done(),
            Finding::CompareStopped { scanned } => Text::of("comparison stopped at ").hex_small(scanned, 1).lit(" bytes: the device refused a read").done(),
            Finding::TablesAgree { bytes } => Text::of("the two tables agree: all ").dec(bytes).lit(" bytes identical").done(),
            Finding::TablesAgreeSoFar { scanned, bytes } => Text::of("the two tables agree: first ").dec(scanned).lit(" of ").dec(bytes).lit(" bytes identical").done(),
            Finding::ByteDiffers { a, byte_a, b, byte_b } => Text::of("FAT #").dec(a).lit(" holds ").hex(byte_a as u64, 2).lit(", FAT #").dec(b).lit(" holds ").hex(byte_b as u64, 2).done(),
            Finding::TablesDisagree { count, scanned } => Text::of("the allocation tables disagree: ").dec(count).lit(" differing bytes found in the first ").dec(scanned).lit(" compared").done(),
            Finding::TablesDisagreeAtLeast { count, scanned } => Text::of("the allocation tables disagree: ").dec(count).lit(" differing bytes found in the first ").dec(scanned).lit(" compared, reporting stopped there").done(),
            Finding::RootOutside { cluster } => Text::of("root cluster ").dec(cluster).lit(" is outside the data region").done(),
            Finding::NoExtent => Text::of("this directory's cluster chain resolves to nothing readable").done(),
            Finding::DirectoryUnreadable => Text::of("part of this directory could not be read").done(),
            Finding::EndMarker => Text::of("a driver stops here; everything listed after this point is what the directory used to contain").done(),
            Finding::Residue => Text::of("marked never-used (first byte 0x00) but the remaining 31 bytes are not zero: a directory entry that was overwritten rather than erased").done(),
            Finding::Orphan => Text::of("long-filename fragment with no 8.3 entry after it").done(),
            Finding::Deleted => Text::of("deleted: the first character of the name has been overwritten with 0xE5 and cannot be recovered from this entry alone").done(),
            Finding::PastEnd => Text::of("this entry lies past the directory's end-of-directory marker, so no driver will list it").done(),
            Finding::SequenceLost => Text::of("the sequence number has been overwritten with 0xE5 by the delete; only the fragment's position on disk still says where it belongs in the name").done(),
            Finding::NoLastBit => Text::of("the first fragment on disk should carry the 0x40 last-entry bit; without it the run is incomplete and the name may be missing its tail").done(),
            Finding::SplicedRun => Text::of("the 0x40 last-entry bit appears in the middle of a run: two runs have been spliced together").done(),
            Finding::SumRestorable { stored_sum, computed_sum, byte } => Text::of("stored ").hex(stored_sum as u64, 2).lit(", computed ").hex(computed_sum as u64, 2).lit(" — as expected, because the 8.3 name's first byte is the 0xE5 deletion mark. It checksums correctly with ").quoted_char(byte).lit(" restored.").done(),
            Finding::SumDestroyed { stored_sum, computed_sum } => Text::of("stored ").hex(stored_sum as u64, 2).lit(", computed ").hex(computed_sum as u64, 2).lit(": the 8.3 name's first byte was destroyed by the delete, so the two cannot agree").done(),
            Finding::SumAlien { stored_sum, computed_sum } => Text::of("stored ").hex(stored_sum as u64, 2).lit(", computed ").hex(computed_sum as u64, 2).lit(": this fragment does not belong to the 8.3 entry after it").done(),
            Finding::LongNameSurvives => Text::of("the long-filename fragments of a deleted file survive in full, so the name is recoverable even though the 8.3 entry's first character is not").done(),
            Finding::FirstCharacter { byte, stored_sum } => Text::of("the destroyed 8.3 first character was ").quoted_char(byte).lit(": it is the only byte for which the stored long-name checksum ").hex(stored_sum as u64, 2).lit(" comes out right").done(),
            Finding::AlienLongName => Text::of("the long name does not belong to this 8.3 entry").done(),
            Finding::ClusterOutside { cluster, last } => Text::of("cluster ").dec(cluster).lit(" is outside 2..=").dec(last).lit("; this entry points nowhere").done(),
            Finding::ChainReleased { cluster } => Text::of("the FAT entry for cluster ").dec(cluster).lit(" reads free: the chain was released by the delete, so only the first cluster's location is still known").done(),
            Finding::ChainKept { cluster, value } => Text::of("the FAT entry for cluster ").dec(cluster).lit(" still reads ").hex(value as u64, 1).lit(": the chain was not cleared, so it may be followable").done(),
            Finding::ChainUnknown { cluster } => Text::of("the FAT entry for cluster ").dec(cluster).lit(" is unreadable").done(),
            Finding::LabelWithCluster => Text::of("an ATTR_VOLUME_ID entry must have first_cluster zero; a non-zero value is either residue or a deliberate hiding place").done(),
            Finding::ChainEnds { value } => Text::of("ended cleanly at an end-of-chain marker ").hex(value as u64, 1).done(),
            Finding::ChainBad { cluster } => Text::of("cluster ").dec(cluster).lit(" is marked bad; the rest of the chain cannot be reached").done(),
            Finding::ChainFree { cluster } => Text::of("the FAT entry after cluster ").dec(cluster).lit(" reads free: the chain was truncated, which is what deleting a file does").done(),
            Finding::ChainOutside { cluster, last } => Text::of("next cluster ").dec(cluster).lit(" is outside 2..=").dec(last).done(),
            Finding::ChainLoops { cluster } => Text::of("the chain returns to cluster ").dec(cluster).lit(", which it has already used; traversal stopped rather than looping").done(),
            Finding::ChainTruncated => Text::of("traversal limit reached before the chain ended").done(),
            Finding::ChainUnreadable { cluster } => Text::of("the FAT entry for cluster ").dec(cluster).lit(" could not be read").done(),
        }
    }

    /// What it means for the reader, where there is something to add.
    pub open spec fn advice(self) -> Option<Seq<char>> {
        match self {
            Finding::SectorSize { .. } => Some("512, 1024, 2048 or 4096 are the only values a FAT driver accepts"@),
            Finding::NoDataRegion { .. } => Some("either the size field or the FAT size has been altered"@),
            Finding::FatSizeBoth { .. } => Some("the 16-bit field is the one used here, so every offset past the reserved area depends on which of the two is right"@),
            Finding::VolumePast16 { .. } => Some("usually a formatter given a size in KiB where it wanted sectors; everything past the device end reads as unreadable, not as zeros"@),
            Finding::VolumePast32 { .. } => Some("usually a formatter given a size in KiB where it wanted sectors; everything past the device end reads as unreadable, not as zeros"@),
            Finding::FsTypeLies { .. } => Some("a resized volume commonly keeps the old string"@),
            Finding::MirroringOff { .. } => Some("differences between the FATs below are expected, not corruption"@),
            Finding::BackupDiffers { .. } => Some("compare the two BPBs field by field; the one that matches the FAT and the root directory is the live geometry"@),
            Finding::ContentsUnlocated => Some("the boot sector above is still shown in full; a FAT32 backup copy normally lives six sectors in"@),
            Finding::CompareStopped { .. } => Some("a failing sector inside a FAT makes every chain through it unreadable"@),
            Finding::TablesDisagree { .. } => Some("unless ext_flags disables mirroring, the two copies are written together; a divergence means one of them was written by something that did not know about the other, or a sector went bad"@),
            Finding::TablesDisagreeAtLeast { .. } => Some("unless ext_flags disables mirroring, the two copies are written together; a divergence means one of them was written by something that did not know about the other, or a sector went bad"@),
            Finding::DirectoryUnreadable => Some("entries past the failure are not shown; this is not an empty directory"@),
            Finding::EndMarker => Some("deleted names and their metadata routinely survive past this marker"@),
            Finding::Residue => Some("the timestamps, size and first cluster below are the old entry's"@),
            Finding::Orphan => Some("the 8.3 entry has been reused; the name is all that is left of the file"@),
            Finding::Deleted => Some("size, timestamps and first cluster below are untouched — deletion rewrites one byte here and clears the cluster chain, nothing else"@),
            Finding::LongNameSurvives => Some("this is the residue a secure-delete tool is supposed to remove"@),
            Finding::AlienLongName => Some("the short entry was rewritten by a tool that did not understand long names, or these fragments are leftovers from a different file"@),
            Finding::ChainReleased { .. } => Some("the file's later clusters cannot be found from here, and any of them may already have been reused"@),
            _ => None,
        }
    }

    /// What it means for the reader, where there is something to add.
    pub fn hint(&self) -> (r: Option<String>)
        ensures
            match r {
                Some(s) => self.advice() == Some(s@),
                None => self.advice() is None,
            },
    {
        match *self {
            Finding::SectorSize { .. } => Some(Text::of("512, 1024, 2048 or 4096 are the only values a FAT driver accepts").done()),
            Finding::NoDataRegion { .. } => Some(Text::of("either the size field or the FAT size has been altered").done()),
            Finding::FatSizeBoth { .. } => Some(Text::of("the 16-bit field is the one used here, so every offset past the reserved area depends on which of the two is right").done()),
            Finding::VolumePast16 { .. } => Some(Text::of("usually a formatter given a size in KiB where it wanted sectors; everything past the device end reads as unreadable, not as zeros").done()),
            Finding::VolumePast32 { .. } => Some(Text::of("usually a formatter given a size in KiB where it wanted sectors; everything past the device end reads as unreadable, not as zeros").done()),
            Finding::FsTypeLies { .. } => Some(Text::of("a resized volume commonly keeps the old string").done()),
            Finding::MirroringOff { .. } => Some(Text::of("differences between the FATs below are expected, not corruption").done()),
            Finding::BackupDiffers { .. } => Some(Text::of("compare the two BPBs field by field; the one that matches the FAT and the root directory is the live geometry").done()),
            Finding::ContentsUnlocated => Some(Text::of("the boot sector above is still shown in full; a FAT32 backup copy normally lives six sectors in").done()),
            Finding::CompareStopped { .. } => Some(Text::of("a failing sector inside a FAT makes every chain through it unreadable").done()),
            Finding::TablesDisagree { .. } => Some(Text::of("unless ext_flags disables mirroring, the two copies are written together; a divergence means one of them was written by something that did not know about the other, or a sector went bad").done()),
            Finding::TablesDisagreeAtLeast { .. } => Some(Text::of("unless ext_flags disables mirroring, the two copies are written together; a divergence means one of them was written by something that did not know about the other, or a sector went bad").done()),
            Finding::DirectoryUnreadable => Some(Text::of("entries past the failure are not shown; this is not an empty directory").done()),
            Finding::EndMarker => Some(Text::of("deleted names and their metadata routinely survive past this marker").done()),
            Finding::Residue => Some(Text::of("the timestamps, size and first cluster below are the old entry's").done()),
            Finding::Orphan => Some(Text::of("the 8.3 entry has been reused; the name is all that is left of the file").done()),
            Finding::Deleted => Some(Text::of("size, timestamps and first cluster below are untouched — deletion rewrites one byte here and clears the cluster chain, nothing else").done()),
            Finding::LongNameSurvives => Some(Text::of("this is the residue a secure-delete tool is supposed to remove").done()),
            Finding::AlienLongName => Some(Text::of("the short entry was rewritten by a tool that did not understand long names, or these fragments are leftovers from a different file").done()),
            Finding::ChainReleased { .. } => Some(Text::of("the file's later clusters cannot be found from here, and any of them may already have been reused").done()),
            _ => None,
        }
    }

}

} // verus!
