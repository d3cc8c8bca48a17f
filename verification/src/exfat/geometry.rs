//! Everything derived from the exFAT boot sector.

use crate::common;
use crate::common::{
    mul_add, saturating_mul, u16_or_zero, u32_or_zero, u64_or_zero, u8_or_zero,
};
use crate::exfat::desc::BOOT_REGION_SECTORS;
use crate::exfat::finding;
use crate::exfat::finding::{note, Finding};
use vstd::arithmetic::power2;
use vstd::bits;
use vstd::prelude::*;

verus! {

/// A cluster may never exceed 32 MiB.
pub const MAX_CLUSTER_BYTES: u64 = 0x200_0000;

/// The four highest FAT values are reserved, so no volume may declare more
/// clusters than this.
pub const MAX_CLUSTER_COUNT: u64 = 0xFFFF_FFF5;

/// Plain numbers with no findings inside, so that anything that reads later can
/// carry a copy along.
#[derive(Clone, Copy, Debug, PartialEq, Eq, Structural)]
pub struct Geometry {
    /// Absolute byte offset of the volume on the device.
    pub base: u64,
    pub bytes_per_sector: u64,
    pub sectors_per_cluster: u64,
    pub cluster_size: u64,
    pub partition_offset: u64,
    pub volume_length: u64,
    pub fat_offset: u64,
    pub fat_length: u64,
    pub number_of_fats: u64,
    pub cluster_heap_offset: u64,
    pub cluster_count: u64,
    pub first_cluster_of_root: u64,
    pub volume_flags: u64,
    pub fs_revision: u64,
    pub percent_in_use: u64,
    /// Bit 0 of `volume_flags`: which FAT and bitmap a driver is to use.
    pub active_fat: u64,
    /// False when a shift was out of range, so every offset is a fallback rather
    /// than a fact. Traversal follows nothing when this is false.
    pub trusted: bool,
}

/// The sector-size shift is one that the format allows.
pub open spec fn sector_shift_valid(raw: Seq<u8>) -> bool {
    9 <= common::byte_or_zero(raw, 0x6C) <= 12
}

/// The cluster-size shift can be applied at all.
pub open spec fn cluster_shift_valid(raw: Seq<u8>) -> bool {
    common::byte_or_zero(raw, 0x6D) <= 25
}

/// Two to the sector shift, or the device's own sector size where it is invalid.
pub open spec fn sector_size_of(raw: Seq<u8>, fallback: u32) -> int {
    if sector_shift_valid(raw) {
        power2::pow2(common::byte_or_zero(raw, 0x6C) as nat) as int
    } else if fallback == 0 {
        1
    } else {
        fallback as int
    }
}

/// Two to the cluster shift, or one where it is invalid.
pub open spec fn sectors_per_cluster_of(raw: Seq<u8>) -> int {
    if cluster_shift_valid(raw) {
        power2::pow2(common::byte_or_zero(raw, 0x6D) as nat) as int
    } else {
        1
    }
}

/// The cluster size that the two shifts describe together.
pub open spec fn declared_cluster_size(raw: Seq<u8>, fallback: u32) -> int {
    sector_size_of(raw, fallback) * sectors_per_cluster_of(raw)
}

/// What is wrong with the shifts.
pub open spec fn shift_findings(raw: Seq<u8>, fallback: u32) -> Seq<Finding> {
    Seq::<Finding>::empty()
        + finding::when(
            !sector_shift_valid(raw),
            Finding::SectorShift { shift: common::byte_or_zero(raw, 0x6C), fallback },
        )
        + finding::when(
            !cluster_shift_valid(raw),
            Finding::ClusterShift { shift: common::byte_or_zero(raw, 0x6D) },
        )
        + finding::when(
            declared_cluster_size(raw, fallback) > MAX_CLUSTER_BYTES,
            Finding::ClusterSize {
                bytes_per_sector: sector_size_of(raw, fallback) as u64,
                sectors_per_cluster: sectors_per_cluster_of(raw) as u64,
                cluster_size: declared_cluster_size(raw, fallback) as u64,
            },
        )
}

/// The geometry that boot sector `raw` describes for a volume at `base`.
pub open spec fn geometry_of(raw: Seq<u8>, base: u64, fallback: u32) -> Geometry {
    Geometry {
        base,
        bytes_per_sector: sector_size_of(raw, fallback) as u64,
        sectors_per_cluster: sectors_per_cluster_of(raw) as u64,
        cluster_size: if declared_cluster_size(raw, fallback) > MAX_CLUSTER_BYTES {
            sector_size_of(raw, fallback) as u64
        } else {
            declared_cluster_size(raw, fallback) as u64
        },
        partition_offset: common::le64_or_zero(raw, 0x40),
        volume_length: common::le64_or_zero(raw, 0x48),
        fat_offset: common::le32_or_zero(raw, 0x50) as u64,
        fat_length: common::le32_or_zero(raw, 0x54) as u64,
        number_of_fats: common::byte_or_zero(raw, 0x6E) as u64,
        cluster_heap_offset: common::le32_or_zero(raw, 0x58) as u64,
        cluster_count: common::le32_or_zero(raw, 0x5C) as u64,
        first_cluster_of_root: common::le32_or_zero(raw, 0x60) as u64,
        volume_flags: common::le16_or_zero(raw, 0x6A) as u64,
        fs_revision: common::le16_or_zero(raw, 0x68) as u64,
        percent_in_use: common::byte_or_zero(raw, 0x70) as u64,
        active_fat: (common::le16_or_zero(raw, 0x6A) % 2) as u64,
        trusted: shift_findings(raw, fallback).len() == 0,
    }
}

proof fn lemma_shift(shift: u8)
    requires
        shift <= 25,
    ensures
        1u64 << (shift as u64) == power2::pow2(shift as nat),
        1 <= power2::pow2(shift as nat) <= 0x200_0000,
        shift >= 9 ==> power2::pow2(shift as nat) >= 512,
        shift <= 12 ==> power2::pow2(shift as nat) <= 4096,
{
    bits::lemma_u64_pow2_no_overflow(shift as nat);
    bits::lemma_u64_shl_is_mul(1, shift as u64);
    power2::lemma2_to64();
    power2::lemma_pow2_pos(shift as nat);
    if shift < 25 {
        power2::lemma_pow2_strictly_increases(shift as nat, 25);
    }
    if shift > 9 {
        power2::lemma_pow2_strictly_increases(9, shift as nat);
    }
    if shift < 12 {
        power2::lemma_pow2_strictly_increases(shift as nat, 12);
    }
}

proof fn lemma_cluster_product(a: int, b: int)
    requires
        1 <= a <= 0xFFFF_FFFF,
        1 <= b <= 0x200_0000,
    ensures
        1 <= a * b <= 0xFFFF_FFFF * 0x200_0000,
{
    assert(1 <= a * b <= 0xFFFF_FFFF * 0x200_0000) by (nonlinear_arith)
        requires
            1 <= a <= 0xFFFF_FFFF,
            1 <= b <= 0x200_0000,
    ;
}

/// What every boot sector's geometry satisfies: sizes are never zero, a trusted
/// one has a sector of 512 to 4096 bytes and a cluster of at most 32 MiB, and
/// every count fits the field it was read from.
pub proof fn lemma_geometry_bounds(raw: Seq<u8>, base: u64, fallback: u32)
    ensures
        geometry_of(raw, base, fallback).well_formed(),
        geometry_of(raw, base, fallback).trusted ==> {
            let g = geometry_of(raw, base, fallback);
            &&& 512 <= g.bytes_per_sector <= 4096
            &&& g.cluster_size == g.bytes_per_sector * g.sectors_per_cluster
            &&& g.cluster_size <= MAX_CLUSTER_BYTES
        },
{
    let g = geometry_of(raw, base, fallback);
    if sector_shift_valid(raw) {
        lemma_shift(common::byte_or_zero(raw, 0x6C));
    }
    if cluster_shift_valid(raw) {
        lemma_shift(common::byte_or_zero(raw, 0x6D));
    }
    lemma_cluster_product(sector_size_of(raw, fallback), sectors_per_cluster_of(raw));
    assert(g.trusted ==> sector_shift_valid(raw) && cluster_shift_valid(raw)
        && declared_cluster_size(raw, fallback) <= MAX_CLUSTER_BYTES);
}

impl Geometry {
    /// The bounds that reading the numbers from a boot sector guarantees.
    pub open spec fn well_formed(self) -> bool {
        &&& 1 <= self.bytes_per_sector <= 0xFFFF_FFFF
        &&& 1 <= self.sectors_per_cluster <= 0x200_0000
        &&& 1 <= self.cluster_size <= 0xFFFF_FFFF
        &&& self.fat_offset <= 0xFFFF_FFFF
        &&& self.fat_length <= 0xFFFF_FFFF
        &&& self.number_of_fats <= 0xFF
        &&& self.cluster_heap_offset <= 0xFFFF_FFFF
        &&& self.cluster_count <= 0xFFFF_FFFF
        &&& self.first_cluster_of_root <= 0xFFFF_FFFF
        &&& self.volume_flags <= 0xFFFF
        &&& self.fs_revision <= 0xFFFF
        &&& self.percent_in_use <= 0xFF
        &&& self.active_fat == self.volume_flags % 2
    }

    /// Absolute byte offset of a volume-relative sector.
    pub open spec fn sector_at(self, sector: int) -> Option<u64> {
        common::checked(sector * self.bytes_per_sector + self.base)
    }

    /// Size of the volume in bytes.
    pub open spec fn size(self) -> Option<u64> {
        common::checked(self.volume_length * self.bytes_per_sector)
    }

    /// Absolute byte offset of cluster 2.
    pub open spec fn heap_at(self) -> Option<u64> {
        self.sector_at(self.cluster_heap_offset as int)
    }

    /// Absolute byte offset of one of the FATs.
    pub open spec fn fat_at(self, index: int) -> Option<u64> {
        match common::checked(index * self.fat_length + self.fat_offset) {
            Some(sector) => self.sector_at(sector as int),
            None => None,
        }
    }

    /// The heap's clusters are numbered 2 to `cluster_count + 1`.
    pub open spec fn in_heap(self, cluster: int) -> bool {
        2 <= cluster <= self.cluster_count + 1
    }

    /// Absolute byte offset of a cluster in the heap.
    pub open spec fn cluster_at(self, cluster: int) -> Option<u64> {
        if !self.in_heap(cluster) {
            None
        } else {
            match self.heap_at() {
                Some(heap) => common::checked((cluster - 2) * self.cluster_size + heap),
                None => None,
            }
        }
    }

    /// Everything that can be held against a geometry without reading past the
    /// boot sector.
    pub open spec fn consistent(self, device_len: u64) -> bool {
        let fats_end = self.fat_length * self.number_of_fats + self.fat_offset;
        let heap_end = self.cluster_count * self.sectors_per_cluster + self.cluster_heap_offset;
        &&& fats_end <= u64::MAX
        &&& heap_end <= u64::MAX
        &&& 1 <= self.number_of_fats <= 2
        &&& self.fat_offset >= 2 * BOOT_REGION_SECTORS
        &&& self.fat_length > 0
        &&& self.cluster_heap_offset >= fats_end
        &&& 0 < self.cluster_count <= MAX_CLUSTER_COUNT
        &&& heap_end <= self.volume_length
        &&& self.in_heap(self.first_cluster_of_root as int)
        &&& (self.size() matches Some(bytes) && bytes > 0 && common::saturated(self.base + bytes)
            <= if device_len == 0 { 1 } else { device_len })
    }

    /// Derive the geometry from a boot sector. The shifts are validated *before*
    /// anything is shifted by them.
    pub fn from_boot(raw: &[u8], base: u64, fallback_sector: u32) -> (r: (Geometry, Vec<Finding>))
        ensures
            r.0 == geometry_of(raw@, base, fallback_sector),
            r.1@ == shift_findings(raw@, fallback_sector),
            r.0.well_formed(),
    {
        let mut findings: Vec<Finding> = Vec::new();
        let bps_shift: u8 = u8_or_zero(raw, 0x6C);
        let spc_shift: u8 = u8_or_zero(raw, 0x6D);

        let bps_ok: bool = 9 <= bps_shift && bps_shift <= 12;
        let bytes_per_sector: u64 = if bps_ok {
            proof {
                lemma_shift(bps_shift);
            }
            1u64 << (bps_shift as u64)
        } else if fallback_sector == 0 {
            1
        } else {
            fallback_sector as u64
        };
        note(
            &mut findings,
            !bps_ok,
            Finding::SectorShift { shift: bps_shift, fallback: fallback_sector },
        );

        let spc_ok: bool = spc_shift <= 25;
        let sectors_per_cluster: u64 = if spc_ok {
            proof {
                lemma_shift(spc_shift);
            }
            1u64 << (spc_shift as u64)
        } else {
            1
        };
        note(&mut findings, !spc_ok, Finding::ClusterShift { shift: spc_shift });

        proof {
            lemma_cluster_product(bytes_per_sector as int, sectors_per_cluster as int);
            lemma_geometry_bounds(raw@, base, fallback_sector);
        }
        let declared: u64 = bytes_per_sector * sectors_per_cluster;
        let too_big: bool = declared > MAX_CLUSTER_BYTES;
        note(
            &mut findings,
            too_big,
            Finding::ClusterSize { bytes_per_sector, sectors_per_cluster, cluster_size: declared },
        );
        let cluster_size: u64 = if too_big { bytes_per_sector } else { declared };

        let volume_flags: u64 = u16_or_zero(raw, 0x6A) as u64;
        let geo = Geometry {
            base,
            bytes_per_sector,
            sectors_per_cluster,
            cluster_size,
            partition_offset: u64_or_zero(raw, 0x40),
            volume_length: u64_or_zero(raw, 0x48),
            fat_offset: u32_or_zero(raw, 0x50) as u64,
            fat_length: u32_or_zero(raw, 0x54) as u64,
            number_of_fats: u8_or_zero(raw, 0x6E) as u64,
            cluster_heap_offset: u32_or_zero(raw, 0x58) as u64,
            cluster_count: u32_or_zero(raw, 0x5C) as u64,
            first_cluster_of_root: u32_or_zero(raw, 0x60) as u64,
            volume_flags,
            fs_revision: u16_or_zero(raw, 0x68) as u64,
            percent_in_use: u8_or_zero(raw, 0x70) as u64,
            active_fat: volume_flags % 2,
            trusted: bps_ok && spc_ok && !too_big,
        };
        (geo, findings)
    }

    /// Byte offset of a volume-relative sector, absolute on the device.
    pub fn sector_byte(&self, sector: u64) -> (r: Option<u64>)
        ensures
            r == self.sector_at(sector as int),
    {
        mul_add(sector, self.bytes_per_sector, self.base)
    }

    pub fn volume_bytes(&self) -> (r: Option<u64>)
        ensures
            r == self.size(),
    {
        mul_add(self.volume_length, self.bytes_per_sector, 0)
    }

    pub fn heap_byte(&self) -> (r: Option<u64>)
        ensures
            r == self.heap_at(),
    {
        self.sector_byte(self.cluster_heap_offset)
    }

    /// Byte offset of one of the (at most two) FATs.
    pub fn fat_byte(&self, index: u64) -> (r: Option<u64>)
        ensures
            r == self.fat_at(index as int),
    {
        match mul_add(index, self.fat_length, self.fat_offset) {
            Some(sector) => self.sector_byte(sector),
            None => None,
        }
    }

    /// Absolute byte offset of a cluster. `None` for cluster numbers outside the
    /// heap: there is no cluster 0 or 1, and the last is `cluster_count + 1`.
    pub fn cluster_byte(&self, cluster: u64) -> (r: Option<u64>)
        ensures
            r == self.cluster_at(cluster as int),
    {
        if !self.cluster_in_heap(cluster) {
            return None;
        }
        match self.heap_byte() {
            Some(heap) => mul_add(cluster - 2, self.cluster_size, heap),
            None => None,
        }
    }

    pub fn cluster_in_heap(&self, cluster: u64) -> (r: bool)
        ensures
            r == self.in_heap(cluster as int),
    {
        cluster >= 2 && cluster - 1 <= self.cluster_count
    }

    /// Highest valid cluster number.
    pub fn last_cluster(&self) -> (r: u64)
        ensures
            r == common::saturated(self.cluster_count + 1),
    {
        self.cluster_count.saturating_add(1)
    }

    /// Everything the probe can check without reading past the boot sector.
    ///
    /// Deliberately strict: this is what separates "the signature is there" from
    /// "this is an exFAT volume".
    pub fn self_consistent(&self, device_len: u64) -> (r: bool)
        ensures
            r == self.consistent(device_len),
    {
        let fats_end: u64 = match mul_add(self.fat_length, self.number_of_fats, self.fat_offset) {
            Some(v) => v,
            None => return false,
        };
        let heap_end: u64 = match mul_add(
            self.cluster_count,
            self.sectors_per_cluster,
            self.cluster_heap_offset,
        ) {
            Some(v) => v,
            None => return false,
        };
        let volume_bytes: u64 = match self.volume_bytes() {
            Some(v) => v,
            None => 0,
        };
        let reach: u64 = if device_len == 0 { 1 } else { device_len };
        1 <= self.number_of_fats && self.number_of_fats <= 2 && self.fat_offset >= 2
            * BOOT_REGION_SECTORS && self.fat_length > 0 && self.cluster_heap_offset >= fats_end
            && self.cluster_count > 0 && self.cluster_count <= MAX_CLUSTER_COUNT && heap_end
            <= self.volume_length && self.cluster_in_heap(self.first_cluster_of_root)
            && volume_bytes > 0 && self.base.saturating_add(volume_bytes) <= reach
    }
}

// -------------------------------------------------------------- boot sector

/// Where the volume says it is, against where it was opened and what the device holds.
pub open spec fn placement_findings(g: Geometry, device_len: u64) -> Seq<Finding> {
    let lba = g.base / g.bytes_per_sector;
    let end = common::saturated(g.base + g.volume_length * g.bytes_per_sector);
    Seq::<Finding>::empty()
        + finding::when(
            g.partition_offset == 0 && g.base != 0,
            Finding::PartitionOffsetUnset { lba, base: g.base },
        )
        + finding::when(
            g.partition_offset != 0 && g.partition_offset != lba,
            Finding::PartitionOffsetMoved { declared: g.partition_offset, lba },
        )
        + finding::when(
            g.size() is Some && end > device_len && device_len > 0,
            Finding::VolumePastDevice {
                sectors: g.volume_length,
                bytes_per_sector: g.bytes_per_sector,
                end,
                device_len,
            },
        )
        + finding::when(g.size() is None, Finding::VolumeLengthOverflow)
}

/// The FATs against the clusters they describe and the heap that follows them.
pub open spec fn fat_area_findings(g: Geometry) -> Seq<Finding> {
    let need = common::saturated(common::saturated(g.cluster_count + 2) * 4);
    let have = common::saturated(g.fat_length * g.bytes_per_sector);
    let fats_end = common::saturated(
        g.fat_offset + common::saturated(g.fat_length * g.number_of_fats),
    );
    Seq::<Finding>::empty()
        + finding::when(
            have < need,
            Finding::FatTooShort { sectors: g.fat_length, have, clusters: g.cluster_count, need },
        )
        + finding::when(
            g.cluster_heap_offset < fats_end,
            Finding::HeapOverlapsFats {
                heap: g.cluster_heap_offset,
                fats: g.number_of_fats,
                fats_end,
            },
        )
}

/// The cluster heap against the volume, and the root directory against the heap.
pub open spec fn heap_findings(g: Geometry) -> Seq<Finding> {
    let heap_end = common::saturated(
        g.cluster_heap_offset + common::saturated(g.cluster_count * g.sectors_per_cluster),
    );
    Seq::<Finding>::empty()
        + finding::when(
            g.cluster_count > MAX_CLUSTER_COUNT,
            Finding::TooManyClusters { count: g.cluster_count },
        )
        + finding::when(
            g.cluster_count <= MAX_CLUSTER_COUNT && 0 < g.volume_length < heap_end,
            Finding::HeapPastVolume {
                count: g.cluster_count,
                heap_end,
                volume_length: g.volume_length,
            },
        )
        + finding::when(
            g.cluster_count == 0 && !(0 < g.volume_length < heap_end),
            Finding::NoClusters,
        )
        + finding::when(
            !g.in_heap(g.first_cluster_of_root as int),
            Finding::RootOutsideHeap {
                cluster: g.first_cluster_of_root,
                last: common::saturated(g.cluster_count + 1),
            },
        )
}

/// The revision, the advisory percentage and the volume flags.
pub open spec fn flag_findings(g: Geometry) -> Seq<Finding> {
    Seq::<Finding>::empty()
        + finding::when(
            g.fs_revision != 0x0100,
            Finding::UnknownRevision { major: g.fs_revision / 256, minor: g.fs_revision % 256 },
        )
        + finding::when(
            g.percent_in_use > 100 && g.percent_in_use != 0xFF,
            Finding::PercentInvalid { percent: g.percent_in_use },
        )
        + finding::when(
            g.volume_flags >= 16,
            Finding::ReservedVolumeFlags { flags: g.volume_flags },
        )
        + finding::when((g.volume_flags / 2) % 2 == 1, Finding::VolumeDirty)
        + finding::when((g.volume_flags / 4) % 2 == 1, Finding::MediaFailure)
        + finding::when(g.active_fat != 0 && g.number_of_fats < 2, Finding::ActiveFatMissing)
}

/// What the geometry says about the boot sector's own fields.
pub open spec fn boot_sector_findings(g: Geometry, device_len: u64) -> Seq<Finding> {
    placement_findings(g, device_len) + fat_area_findings(g) + heap_findings(g) + flag_findings(g)
}

fn check_placement(geo: &Geometry, device_len: u64) -> (out: Vec<Finding>)
    requires
        geo.well_formed(),
    ensures
        out@ == placement_findings(*geo, device_len),
{
    let mut out: Vec<Finding> = Vec::new();
    let bps: u64 = geo.bytes_per_sector;
    // An offset of 0 is not "the volume starts at sector 0", it is "I have no
    // meaningful value".
    let lba: u64 = geo.base / bps;
    note(
        &mut out,
        geo.partition_offset == 0 && geo.base != 0,
        Finding::PartitionOffsetUnset { lba, base: geo.base },
    );
    note(
        &mut out,
        geo.partition_offset != 0 && geo.partition_offset != lba,
        Finding::PartitionOffsetMoved { declared: geo.partition_offset, lba },
    );
    let size = geo.volume_bytes();
    assert(geo.volume_length * bps >= 0) by (nonlinear_arith)
        requires
            geo.volume_length >= 0,
            bps >= 0,
    ;
    let end: u64 = match size {
        Some(bytes) => geo.base.saturating_add(bytes),
        None => u64::MAX,
    };
    note(
        &mut out,
        size.is_some() && end > device_len && device_len > 0,
        Finding::VolumePastDevice {
            sectors: geo.volume_length,
            bytes_per_sector: bps,
            end,
            device_len,
        },
    );
    note(&mut out, size.is_none(), Finding::VolumeLengthOverflow);
    out
}

fn check_fat_area(geo: &Geometry) -> (out: Vec<Finding>)
    ensures
        out@ == fat_area_findings(*geo),
{
    let mut out: Vec<Finding> = Vec::new();
    // A FAT must hold an entry for every cluster plus the two reserved ones. A
    // short FAT means the tail of the heap has no entries at all.
    let need: u64 = saturating_mul(geo.cluster_count.saturating_add(2), 4);
    let have: u64 = saturating_mul(geo.fat_length, geo.bytes_per_sector);
    note(
        &mut out,
        have < need,
        Finding::FatTooShort {
            sectors: geo.fat_length,
            have,
            clusters: geo.cluster_count,
            need,
        },
    );
    let fats_end: u64 = geo.fat_offset.saturating_add(
        saturating_mul(geo.fat_length, geo.number_of_fats),
    );
    note(
        &mut out,
        geo.cluster_heap_offset < fats_end,
        Finding::HeapOverlapsFats {
            heap: geo.cluster_heap_offset,
            fats: geo.number_of_fats,
            fats_end,
        },
    );
    out
}

fn check_heap(geo: &Geometry) -> (out: Vec<Finding>)
    ensures
        out@ == heap_findings(*geo),
{
    let mut out: Vec<Finding> = Vec::new();
    let heap_end: u64 = geo.cluster_heap_offset.saturating_add(
        saturating_mul(geo.cluster_count, geo.sectors_per_cluster),
    );
    let too_many: bool = geo.cluster_count > MAX_CLUSTER_COUNT;
    let past_volume: bool = geo.volume_length > 0 && heap_end > geo.volume_length;
    note(&mut out, too_many, Finding::TooManyClusters { count: geo.cluster_count });
    note(
        &mut out,
        !too_many && past_volume,
        Finding::HeapPastVolume {
            count: geo.cluster_count,
            heap_end,
            volume_length: geo.volume_length,
        },
    );
    note(&mut out, geo.cluster_count == 0 && !past_volume, Finding::NoClusters);
    note(
        &mut out,
        !geo.cluster_in_heap(geo.first_cluster_of_root),
        Finding::RootOutsideHeap {
            cluster: geo.first_cluster_of_root,
            last: geo.last_cluster(),
        },
    );
    out
}

fn check_flags(geo: &Geometry) -> (out: Vec<Finding>)
    ensures
        out@ == flag_findings(*geo),
{
    let mut out: Vec<Finding> = Vec::new();
    let major: u64 = geo.fs_revision / 256;
    let minor: u64 = geo.fs_revision % 256;
    note(&mut out, geo.fs_revision != 0x0100, Finding::UnknownRevision { major, minor });
    note(
        &mut out,
        geo.percent_in_use > 100 && geo.percent_in_use != 0xFF,
        Finding::PercentInvalid { percent: geo.percent_in_use },
    );
    let flags: u64 = geo.volume_flags;
    note(&mut out, flags >= 16, Finding::ReservedVolumeFlags { flags });
    note(&mut out, (flags / 2) % 2 == 1, Finding::VolumeDirty);
    note(&mut out, (flags / 4) % 2 == 1, Finding::MediaFailure);
    note(&mut out, geo.active_fat != 0 && geo.number_of_fats < 2, Finding::ActiveFatMissing);
    out
}

/// Check the boot sector's fields against each other and against the device.
pub fn annotate_boot_sector(geo: &Geometry, device_len: u64) -> (out: Vec<Finding>)
    requires
        geo.well_formed(),
    ensures
        out@ == boot_sector_findings(*geo, device_len),
{
    let mut out: Vec<Finding> = check_placement(geo, device_len);
    let mut fats: Vec<Finding> = check_fat_area(geo);
    let mut heap: Vec<Finding> = check_heap(geo);
    let mut flags: Vec<Finding> = check_flags(geo);
    out.append(&mut fats);
    out.append(&mut heap);
    out.append(&mut flags);
    out
}

} // verus!
