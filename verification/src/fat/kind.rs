//! Which width the allocation table entries have.

use vstd::prelude::*;

verus! {

/// Which width the allocation table entries have.
///
/// The cluster count decides it and nothing else. The thresholds look off by a few,
/// 4085 and 65525 rather than 4096 and 65536, and that is deliberate: adjusting them
/// by even one cluster misreads volumes that are in order.
#[derive(Clone, Copy, Debug, PartialEq, Eq, Structural)]
pub enum FatKind {
    Fat12,
    Fat16,
    Fat32,
}

/// The kind of a volume with that many clusters.
pub open spec fn kind_of(clusters: int) -> FatKind {
    if clusters < 4085 {
        FatKind::Fat12
    } else if clusters < 65525 {
        FatKind::Fat16
    } else {
        FatKind::Fat32
    }
}

/// The name of a kind.
pub open spec fn kind_name(kind: FatKind) -> &'static str {
    match kind {
        FatKind::Fat12 => "FAT12",
        FatKind::Fat16 => "FAT16",
        FatKind::Fat32 => "FAT32",
    }
}

/// The name of a kind.
pub fn kind_label(kind: FatKind) -> (r: &'static str)
    ensures
        r@ == kind_name(kind)@,
{
    match kind {
        FatKind::Fat12 => "FAT12",
        FatKind::Fat16 => "FAT16",
        FatKind::Fat32 => "FAT32",
    }
}

impl FatKind {
    pub fn from_cluster_count(clusters: u64) -> (r: FatKind)
        ensures
            r == kind_of(clusters as int),
    {
        if clusters < 4085 {
            FatKind::Fat12
        } else if clusters < 65525 {
            FatKind::Fat16
        } else {
            FatKind::Fat32
        }
    }

    pub fn name(self) -> (r: &'static str)
        ensures
            r@ == kind_name(self)@,
    {
        kind_label(self)
    }

    /// The `fs_type` string a formatter conventionally writes. Documentation only.
    pub fn fs_type_string(self) -> (r: &'static str)
        ensures
            r@ == kind_name(self)@,
    {
        kind_label(self)
    }

    /// Bits of a FAT entry that carry the cluster number, as a mask.
    pub open spec fn bits(self) -> u32 {
        match self {
            FatKind::Fat12 => 0x0000_0FFF,
            FatKind::Fat16 => 0x0000_FFFF,
            FatKind::Fat32 => 0x0FFF_FFFF,
        }
    }

    /// Bits of a FAT entry that carry the cluster number. FAT32 stores 28, not 32: the
    /// top four bits are reserved and a writer must preserve them.
    pub fn mask(self) -> (r: u32)
        ensures
            r == self.bits(),
    {
        match self {
            FatKind::Fat12 => 0x0000_0FFF,
            FatKind::Fat16 => 0x0000_FFFF,
            FatKind::Fat32 => 0x0FFF_FFFF,
        }
    }

    /// Lowest value that means end-of-chain.
    pub open spec fn eoc(self) -> u32 {
        (self.bits() - 7) as u32
    }

    /// Lowest value that means end-of-chain.
    pub fn eoc_min(self) -> (r: u32)
        ensures
            r == self.eoc(),
    {
        match self {
            FatKind::Fat12 => 0x0000_0FF8,
            FatKind::Fat16 => 0x0000_FFF8,
            FatKind::Fat32 => 0x0FFF_FFF8,
        }
    }

    /// The single value that marks a cluster as unusable.
    pub open spec fn bad(self) -> u32 {
        (self.bits() - 8) as u32
    }

    /// The single value that marks a cluster as unusable.
    pub fn bad_mark(self) -> (r: u32)
        ensures
            r == self.bad(),
    {
        match self {
            FatKind::Fat12 => 0x0000_0FF7,
            FatKind::Fat16 => 0x0000_FFF7,
            FatKind::Fat32 => 0x0FFF_FFF7,
        }
    }
}

/// No cluster number of a volume of its kind is an end-of-chain marker or a bad mark,
/// as long as there are no more clusters than a FAT32 entry can number.
pub proof fn lemma_markers_are_no_clusters(clusters: int, cluster: int)
    requires
        0 <= clusters < 0x0FFF_FFF6,
        2 <= cluster <= clusters + 1,
    ensures
        cluster < kind_of(clusters).bad() < kind_of(clusters).eoc(),
{
}

} // verus!
