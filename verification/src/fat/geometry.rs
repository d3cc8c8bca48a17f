//! Where everything on a volume is.
//!
//! Nine fields combine into the cluster count, and the cluster count alone decides
//! whether this is FAT12, FAT16 or FAT32. Where the FATs are, where the root is and how
//! wide a FAT entry is all hang off getting this right.

use crate::common;
use crate::common::{mul_add, saturating_mul, u16_or_zero, u32_or_zero, u8_or_zero};
use crate::fat::finding;
use crate::fat::finding::{note, Finding};
use crate::fat::kind;
use crate::fat::kind::FatKind;
use vstd::prelude::*;

verus! {

// ----------------------------------------------------------------- raw numbers

/// The numbers of the BIOS parameter block that the layout depends on.
#[derive(Clone, Copy, Debug, PartialEq, Eq, Structural)]
pub struct Bpb {
    pub bytes_per_sector: u64,
    pub sectors_per_cluster: u64,
    pub reserved_sectors: u64,
    pub num_fats: u64,
    pub root_entries: u64,
    pub total_16: u64,
    pub fat_size_16: u64,
    pub total_32: u64,
    pub fat_size_32: u64,
    pub root_cluster: u64,
}

/// The numbers that a boot sector states. What was not read counts as zero.
pub open spec fn bpb_of(b: Seq<u8>) -> Bpb {
    Bpb {
        bytes_per_sector: common::le16_or_zero(b, 0x0B) as u64,
        sectors_per_cluster: common::byte_or_zero(b, 0x0D) as u64,
        reserved_sectors: common::le16_or_zero(b, 0x0E) as u64,
        num_fats: common::byte_or_zero(b, 0x10) as u64,
        root_entries: common::le16_or_zero(b, 0x11) as u64,
        total_16: common::le16_or_zero(b, 0x13) as u64,
        fat_size_16: common::le16_or_zero(b, 0x16) as u64,
        total_32: common::le32_or_zero(b, 0x20) as u64,
        fat_size_32: common::le32_or_zero(b, 0x24) as u64,
        root_cluster: common::le32_or_zero(b, 0x2C) as u64,
    }
}

/// A sector size that a driver accepts.
pub open spec fn sector_size_ok(n: u64) -> bool {
    n == 512 || n == 1024 || n == 2048 || n == 4096
}

/// A power of two in 1..=128.
pub open spec fn cluster_size_ok(n: u64) -> bool {
    n == 1 || n == 2 || n == 4 || n == 8 || n == 16 || n == 32 || n == 64 || n == 128
}

impl Bpb {
    /// Every number fits the field it was read from.
    pub open spec fn fits(self) -> bool {
        &&& self.bytes_per_sector <= 0xFFFF
        &&& self.sectors_per_cluster <= 0xFF
        &&& self.reserved_sectors <= 0xFFFF
        &&& self.num_fats <= 0xFF
        &&& self.root_entries <= 0xFFFF
        &&& self.total_16 <= 0xFFFF
        &&& self.fat_size_16 <= 0xFFFF
        &&& self.total_32 <= 0xFFFF_FFFF
        &&& self.fat_size_32 <= 0xFFFF_FFFF
        &&& self.root_cluster <= 0xFFFF_FFFF
    }

    /// The 16-bit field when it is set, else the 32-bit one.
    pub open spec fn fat_size(self) -> u64 {
        if self.fat_size_16 != 0 {
            self.fat_size_16
        } else {
            self.fat_size_32
        }
    }

    /// The 16-bit field when it is set, else the 32-bit one.
    pub open spec fn total(self) -> u64 {
        if self.total_16 != 0 {
            self.total_16
        } else {
            self.total_32
        }
    }

    /// Sectors and clusters have a size, and there are a FAT and a volume.
    pub open spec fn usable(self) -> bool {
        &&& sector_size_ok(self.bytes_per_sector)
        &&& cluster_size_ok(self.sectors_per_cluster)
        &&& self.fat_size() > 0
        &&& self.total() > 0
    }

    /// Sectors of the fixed root directory.
    pub open spec fn root_dir_sectors(self) -> int {
        (self.root_entries * 32 + (self.bytes_per_sector - 1)) / self.bytes_per_sector as int
    }

    /// Sectors in front of the fixed root directory.
    pub open spec fn front(self) -> int {
        self.num_fats * self.fat_size() + self.reserved_sectors
    }

    /// Sectors in front of the data region.
    pub open spec fn meta(self) -> int {
        self.front() + self.root_dir_sectors()
    }

    /// Whole clusters in the data region.
    pub open spec fn clusters(self) -> int {
        (self.total() - self.meta()) / self.sectors_per_cluster as int
    }

    /// Offset of FAT #0 on a device where the volume starts at `base`.
    pub open spec fn fat_start(self, base: u64) -> int {
        self.reserved_sectors * self.bytes_per_sector + base
    }

    /// Offset of the fixed root directory.
    pub open spec fn root_start(self, base: u64) -> int {
        self.front() * self.bytes_per_sector + base
    }

    /// Offset of cluster 2.
    pub open spec fn data_start(self, base: u64) -> int {
        self.root_start(base) + self.root_dir_sectors() * self.bytes_per_sector
    }

    fn read(boot: &[u8]) -> (r: Bpb)
        ensures
            r == bpb_of(boot@),
            r.fits(),
    {
        Bpb {
            bytes_per_sector: u16_or_zero(boot, 0x0B) as u64,
            sectors_per_cluster: u8_or_zero(boot, 0x0D) as u64,
            reserved_sectors: u16_or_zero(boot, 0x0E) as u64,
            num_fats: u8_or_zero(boot, 0x10) as u64,
            root_entries: u16_or_zero(boot, 0x11) as u64,
            total_16: u16_or_zero(boot, 0x13) as u64,
            fat_size_16: u16_or_zero(boot, 0x16) as u64,
            total_32: u32_or_zero(boot, 0x20) as u64,
            fat_size_32: u32_or_zero(boot, 0x24) as u64,
            root_cluster: u32_or_zero(boot, 0x2C) as u64,
        }
    }
}

/// True for a sector size that a driver accepts.
pub fn is_sector_size(n: u64) -> (r: bool)
    ensures
        r == sector_size_ok(n),
{
    n == 512 || n == 1024 || n == 2048 || n == 4096
}

/// True for a power of two in 1..=128.
pub fn is_cluster_size(n: u64) -> (r: bool)
    ensures
        r == cluster_size_ok(n),
{
    n == 1 || n == 2 || n == 4 || n == 8 || n == 16 || n == 32 || n == 64 || n == 128
}

// --------------------------------------------------------------------- geometry

/// Everything that has to be computed before a single byte of the volume can be
/// located.
///
/// `sane` decides: when the boot sector does not describe a usable volume, every
/// derived value is zero and traversal stops rather than seeking to a wrapped offset.
#[derive(Clone, Copy, Debug, PartialEq, Eq, Structural)]
pub struct Geom {
    /// Offset of the boot sector.
    pub base: u64,
    pub bytes_per_sector: u64,
    pub sectors_per_cluster: u64,
    pub bytes_per_cluster: u64,
    pub reserved_sectors: u64,
    pub num_fats: u64,
    pub root_entries: u64,
    pub fat_size: u64,
    pub total_sectors: u64,
    pub root_dir_sectors: u64,
    pub data_sectors: u64,
    pub cluster_count: u64,
    pub kind: FatKind,
    pub root_cluster: u64,
    /// Offset of FAT #0.
    pub fat_start: u64,
    /// Offset of the fixed root directory (FAT12 and FAT16 only).
    pub root_dir_start: u64,
    /// Offset of cluster 2.
    pub data_start: u64,
    /// False when nothing derived may be trusted.
    pub sane: bool,
    /// Length of the device this volume sits on, when the caller knew it.
    pub device_len: u64,
}

/// The geometry of a boot sector that describes no usable volume: what the boot sector
/// states is kept, and everything derived from it is zero.
pub open spec fn blank_of(r: Bpb, base: u64) -> Geom {
    Geom {
        base,
        bytes_per_sector: r.bytes_per_sector,
        sectors_per_cluster: r.sectors_per_cluster,
        bytes_per_cluster: 0,
        reserved_sectors: r.reserved_sectors,
        num_fats: r.num_fats,
        root_entries: r.root_entries,
        fat_size: 0,
        total_sectors: 0,
        root_dir_sectors: 0,
        data_sectors: 0,
        cluster_count: 0,
        kind: FatKind::Fat12,
        root_cluster: r.root_cluster,
        fat_start: 0,
        root_dir_start: 0,
        data_start: 0,
        sane: false,
        device_len: u64::MAX,
    }
}

/// The geometry of a boot sector that describes a layout.
pub open spec fn layout_of(r: Bpb, base: u64) -> Geom {
    Geom {
        base,
        bytes_per_sector: r.bytes_per_sector,
        sectors_per_cluster: r.sectors_per_cluster,
        bytes_per_cluster: (r.sectors_per_cluster * r.bytes_per_sector) as u64,
        reserved_sectors: r.reserved_sectors,
        num_fats: r.num_fats,
        root_entries: r.root_entries,
        fat_size: r.fat_size(),
        total_sectors: r.total(),
        root_dir_sectors: r.root_dir_sectors() as u64,
        data_sectors: (r.total() - r.meta()) as u64,
        cluster_count: r.clusters() as u64,
        kind: kind::kind_of(r.clusters()),
        root_cluster: r.root_cluster,
        fat_start: r.fat_start(base) as u64,
        root_dir_start: r.root_start(base) as u64,
        data_start: r.data_start(base) as u64,
        sane: true,
        device_len: u64::MAX,
    }
}

/// The boot sector describes a layout that holds a cluster and that a 64-bit offset
/// can address.
pub open spec fn laid_out(r: Bpb, base: u64) -> bool {
    r.usable() && r.meta() <= r.total() && r.clusters() > 0 && r.data_start(base) <= u64::MAX
}

/// The geometry of the volume at `base` whose boot sector states the numbers `r`.
pub open spec fn geom_of(r: Bpb, base: u64) -> Geom {
    if laid_out(r, base) {
        layout_of(r, base)
    } else {
        blank_of(r, base)
    }
}

/// What is said of the numbers on their own.
pub open spec fn size_findings(r: Bpb) -> Seq<Finding> {
    Seq::<Finding>::empty() + finding::when(
        !sector_size_ok(r.bytes_per_sector),
        Finding::SectorSize { bytes_per_sector: r.bytes_per_sector },
    ) + finding::when(
        !cluster_size_ok(r.sectors_per_cluster),
        Finding::ClusterSize { sectors_per_cluster: r.sectors_per_cluster },
    ) + finding::when(
        r.total_16 != 0 && r.total_32 != 0,
        Finding::BothTotals { total_16: r.total_16, total_32: r.total_32 },
    ) + finding::when(r.fat_size() == 0, Finding::NoFatSize) + finding::when(
        r.total() == 0,
        Finding::NoVolumeSize,
    )
}

/// What is said of numbers that describe a layout, given the kind it makes. FAT32 puts
/// its root in the data region; FAT12 and FAT16 put it in a fixed area. On FAT32 a
/// 16-bit FAT size must be left at zero.
pub open spec fn kind_findings(r: Bpb) -> Seq<Finding> {
    let clusters = r.clusters() as u64;
    let is_32 = kind::kind_of(r.clusters()) == FatKind::Fat32;
    finding::when(
        is_32 && r.fat_size_16 != 0,
        Finding::FatSizeBoth { size_16: r.fat_size_16, clusters, size_32: r.fat_size_32 },
    ) + finding::when(
        is_32 && r.root_entries != 0,
        Finding::RootEntriesSet { root_entries: r.root_entries, clusters },
    ) + finding::when(
        !is_32 && r.root_entries == 0,
        Finding::RootEntriesZero { clusters, kind: kind::kind_of(r.clusters()) },
    )
}

/// What is said of the layout.
pub open spec fn layout_findings(r: Bpb, base: u64) -> Seq<Finding> {
    if !r.usable() {
        Seq::empty()
    } else if r.meta() > r.total() {
        seq![
            Finding::NoDataRegion { total: r.total(), fats: r.num_fats, meta: r.meta() as u64 },
        ]
    } else {
        finding::when(r.clusters() == 0, Finding::NoCluster) + if r.data_start(base) > u64::MAX {
            seq![Finding::LayoutOverflow]
        } else {
            kind_findings(r)
        }
    }
}

/// Everything that deriving the geometry says, in order.
pub open spec fn derive_findings(r: Bpb, base: u64) -> Seq<Finding> {
    size_findings(r) + layout_findings(r, base)
}

/// What the numbers of a usable boot sector come to stays small, and the FATs, the root
/// and the data follow each other.
pub proof fn lemma_layout_bounds(r: Bpb, base: u64)
    requires
        r.fits(),
        r.usable(),
    ensures
        0 <= r.num_fats * r.fat_size() <= 0xFF * 0xFFFF_FFFF,
        0 <= r.root_dir_sectors() <= 0x1_0000,
        0 <= r.front() <= 0x200_0000_0000,
        0 <= r.meta() <= 0x200_0000_0000,
        r.root_dir_sectors() * r.bytes_per_sector >= 0,
        r.fat_start(base) <= r.root_start(base) <= r.data_start(base),
        r.sectors_per_cluster * r.bytes_per_sector <= 0x8_0000,
        r.meta() <= r.total() ==> 0 <= r.clusters() <= r.total(),
{
    let n = r.root_entries * 32 + (r.bytes_per_sector - 1);
    let b = r.bytes_per_sector as int;
    assert(0 <= n / b <= n) by (nonlinear_arith)
        requires
            n >= 0,
            b >= 1,
    ;
    assert(n <= 0xFFFF * 32 + 4095);
    assert(n / b <= 0x1_0000) by (nonlinear_arith)
        requires
            0 <= n <= 0xFFFF * 32 + 4095,
            b >= 512,
    ;
    assert(0 <= r.num_fats * r.fat_size() <= 0xFF * 0xFFFF_FFFF) by (nonlinear_arith)
        requires
            0 <= r.num_fats <= 0xFF,
            0 <= r.fat_size() <= 0xFFFF_FFFF,
    ;
    assert(r.root_dir_sectors() * r.bytes_per_sector >= 0) by (nonlinear_arith)
        requires
            r.root_dir_sectors() >= 0,
            r.bytes_per_sector >= 0,
    ;
    assert(r.reserved_sectors * r.bytes_per_sector <= r.front() * r.bytes_per_sector)
        by (nonlinear_arith)
        requires
            r.reserved_sectors <= r.front(),
            r.bytes_per_sector >= 0,
    ;
    assert(r.sectors_per_cluster * r.bytes_per_sector <= 128 * 4096) by (nonlinear_arith)
        requires
            0 <= r.sectors_per_cluster <= 128,
            0 <= r.bytes_per_sector <= 4096,
    ;
    let d = r.total() - r.meta();
    let s = r.sectors_per_cluster as int;
    if r.meta() <= r.total() {
        assert(0 <= d / s <= d) by (nonlinear_arith)
            requires
                d >= 0,
                s >= 1,
        ;
    }
}

fn note_sizes(r: &Bpb) -> (out: Vec<Finding>)
    ensures
        out@ == size_findings(*r),
{
    let mut out: Vec<Finding> = Vec::new();
    let fat_size: u64 = if r.fat_size_16 != 0 { r.fat_size_16 } else { r.fat_size_32 };
    let total: u64 = if r.total_16 != 0 { r.total_16 } else { r.total_32 };
    note(
        &mut out,
        !is_sector_size(r.bytes_per_sector),
        Finding::SectorSize { bytes_per_sector: r.bytes_per_sector },
    );
    note(
        &mut out,
        !is_cluster_size(r.sectors_per_cluster),
        Finding::ClusterSize { sectors_per_cluster: r.sectors_per_cluster },
    );
    note(
        &mut out,
        r.total_16 != 0 && r.total_32 != 0,
        Finding::BothTotals { total_16: r.total_16, total_32: r.total_32 },
    );
    note(&mut out, fat_size == 0, Finding::NoFatSize);
    note(&mut out, total == 0, Finding::NoVolumeSize);
    out
}

fn note_kind(r: &Bpb, clusters: u64, kind: FatKind) -> (out: Vec<Finding>)
    requires
        clusters == r.clusters(),
        kind == kind::kind_of(r.clusters()),
    ensures
        out@ == kind_findings(*r),
{
    let mut out: Vec<Finding> = Vec::new();
    let is_32: bool = kind == FatKind::Fat32;
    note(
        &mut out,
        is_32 && r.fat_size_16 != 0,
        Finding::FatSizeBoth { size_16: r.fat_size_16, clusters, size_32: r.fat_size_32 },
    );
    note(
        &mut out,
        is_32 && r.root_entries != 0,
        Finding::RootEntriesSet { root_entries: r.root_entries, clusters },
    );
    note(
        &mut out,
        !is_32 && r.root_entries == 0,
        Finding::RootEntriesZero { clusters, kind },
    );
    assert(out@ =~= kind_findings(*r));
    out
}

fn blank(r: &Bpb, base: u64) -> (g: Geom)
    ensures
        g == blank_of(*r, base),
{
    Geom {
        base,
        bytes_per_sector: r.bytes_per_sector,
        sectors_per_cluster: r.sectors_per_cluster,
        bytes_per_cluster: 0,
        reserved_sectors: r.reserved_sectors,
        num_fats: r.num_fats,
        root_entries: r.root_entries,
        fat_size: 0,
        total_sectors: 0,
        root_dir_sectors: 0,
        data_sectors: 0,
        cluster_count: 0,
        kind: FatKind::Fat12,
        root_cluster: r.root_cluster,
        fat_start: 0,
        root_dir_start: 0,
        data_start: 0,
        sane: false,
        device_len: u64::MAX,
    }
}

impl Geom {
    /// Derive the layout from a boot sector, together with what is wrong with it. Most
    /// of that belongs on a specific field rather than on the volume as a whole.
    pub fn derive(boot: &[u8], base: u64) -> (r: (Geom, Vec<Finding>))
        ensures
            r.0 == geom_of(bpb_of(boot@), base),
            r.1@ == derive_findings(bpb_of(boot@), base),
            r.0.sane <==> laid_out(bpb_of(boot@), base),
            !r.0.sane ==> {
                &&& r.0.bytes_per_cluster == 0
                &&& r.0.fat_size == 0
                &&& r.0.total_sectors == 0
                &&& r.0.root_dir_sectors == 0
                &&& r.0.data_sectors == 0
                &&& r.0.cluster_count == 0
                &&& r.0.fat_start == 0
                &&& r.0.root_dir_start == 0
                &&& r.0.data_start == 0
            },
    {
        let r = Bpb::read(boot);
        let mut d: Vec<Finding> = note_sizes(&r);
        let fat_size: u64 = if r.fat_size_16 != 0 { r.fat_size_16 } else { r.fat_size_32 };
        let total: u64 = if r.total_16 != 0 { r.total_16 } else { r.total_32 };
        if !is_sector_size(r.bytes_per_sector) || !is_cluster_size(r.sectors_per_cluster)
            || fat_size == 0 || total == 0 {
            assert(d@ =~= derive_findings(r, base));
            return (blank(&r, base), d);
        }
        proof {
            lemma_layout_bounds(r, base);
        }
        let bps: u64 = r.bytes_per_sector;
        let root_dir_sectors: u64 = (r.root_entries * 32 + (bps - 1)) / bps;
        let front: u64 = r.num_fats * fat_size + r.reserved_sectors;
        let meta: u64 = front + root_dir_sectors;
        if meta > total {
            d.push(Finding::NoDataRegion { total, fats: r.num_fats, meta });
            assert(d@ =~= derive_findings(r, base));
            return (blank(&r, base), d);
        }
        let data_sectors: u64 = total - meta;
        let cluster_count: u64 = data_sectors / r.sectors_per_cluster;
        let kind = FatKind::from_cluster_count(cluster_count);
        note(&mut d, cluster_count == 0, Finding::NoCluster);
        let ghost start = d@;
        let fat_start = mul_add(r.reserved_sectors, bps, base);
        let root_dir_start = mul_add(front, bps, base);
        let data_start: Option<u64> = match root_dir_start {
            Some(at) => mul_add(root_dir_sectors, bps, at),
            None => None,
        };
        if let (Some(fat_start), Some(root_dir_start), Some(data_start)) = (
            fat_start,
            root_dir_start,
            data_start,
        ) {
            let mut more: Vec<Finding> = note_kind(&r, cluster_count, kind);
            d.append(&mut more);
            assert(d@ =~= derive_findings(r, base));
            if cluster_count == 0 {
                return (blank(&r, base), d);
            }
            let g = Geom {
                base,
                bytes_per_sector: bps,
                sectors_per_cluster: r.sectors_per_cluster,
                bytes_per_cluster: saturating_mul(r.sectors_per_cluster, bps),
                reserved_sectors: r.reserved_sectors,
                num_fats: r.num_fats,
                root_entries: r.root_entries,
                fat_size,
                total_sectors: total,
                root_dir_sectors,
                data_sectors,
                cluster_count,
                kind,
                root_cluster: r.root_cluster,
                fat_start,
                root_dir_start,
                data_start,
                sane: true,
                device_len: u64::MAX,
            };
            (g, d)
        } else {
            d.push(Finding::LayoutOverflow);
            assert(d@ =~= derive_findings(r, base));
            (blank(&r, base), d)
        }
    }

    /// This geometry on a device of known length.
    pub open spec fn on_device(self, len: u64) -> Geom {
        Geom { device_len: len, ..self }
    }

    /// Record the size of the device the volume sits on.
    pub fn with_device_len(self, len: u64) -> (r: Geom)
        ensures
            r == self.on_device(len),
    {
        let mut g = self;
        g.device_len = len;
        g
    }

    /// Offset of a data cluster.
    pub open spec fn cluster_at(self, cluster: int) -> Option<u64> {
        if self.in_range(cluster) {
            common::checked((cluster - 2) * self.bytes_per_cluster + self.data_start)
        } else {
            None
        }
    }

    /// Offset of a data cluster, or `None` when the number is out of range or the
    /// arithmetic would overflow.
    pub fn cluster_to_byte(&self, cluster: u64) -> (r: Option<u64>)
        ensures
            r == self.cluster_at(cluster as int),
            r is None <==> !self.in_range(cluster as int) || (cluster - 2) * self.bytes_per_cluster
                + self.data_start > u64::MAX,
    {
        if !self.cluster_in_range(cluster) {
            return None;
        }
        mul_add(cluster - 2, self.bytes_per_cluster, self.data_start)
    }

    /// Highest cluster number that exists on this volume.
    pub open spec fn last(self) -> u64 {
        common::saturated(self.cluster_count + 1)
    }

    /// Highest cluster number that exists on this volume.
    pub fn last_cluster(&self) -> (r: u64)
        ensures
            r == self.last(),
    {
        self.cluster_count.saturating_add(1)
    }

    /// The cluster exists on this volume.
    pub open spec fn in_range(self, cluster: int) -> bool {
        self.sane && 2 <= cluster <= self.last()
    }

    pub fn cluster_in_range(&self, cluster: u64) -> (r: bool)
        ensures
            r == self.in_range(cluster as int),
    {
        self.sane && cluster >= 2 && cluster <= self.last_cluster()
    }

    /// Length of one FAT.
    pub open spec fn fat_len(self) -> Option<u64> {
        common::checked(self.fat_size * self.bytes_per_sector)
    }

    /// Length of one FAT in bytes.
    pub fn fat_bytes(&self) -> (r: Option<u64>)
        ensures
            r == self.fat_len(),
    {
        mul_add(self.fat_size, self.bytes_per_sector, 0)
    }

    /// Offset of FAT copy `n`.
    pub open spec fn fat_at(self, n: int) -> Option<u64> {
        match self.fat_len() {
            Some(len) => common::checked(n * len + self.fat_start),
            None => None,
        }
    }

    /// Offset of FAT copy `n`.
    pub fn fat_offset(&self, n: u64) -> (r: Option<u64>)
        ensures
            r == self.fat_at(n as int),
    {
        match self.fat_bytes() {
            Some(len) => mul_add(n, len, self.fat_start),
            None => None,
        }
    }

    /// Where the entry for `cluster` stands within a FAT.
    pub open spec fn entry_place(self, cluster: int) -> int {
        match self.kind {
            FatKind::Fat12 => cluster + cluster / 2,
            FatKind::Fat16 => 2 * cluster,
            FatKind::Fat32 => 4 * cluster,
        }
    }

    /// How many bytes an entry touches.
    pub open spec fn entry_width(self) -> u64 {
        match self.kind {
            FatKind::Fat32 => 4,
            _ => 2,
        }
    }

    /// Offset of the entry for `cluster` in FAT copy `fat`.
    pub open spec fn entry_at(self, fat: int, cluster: int) -> Option<u64> {
        match self.fat_at(fat) {
            Some(at) => common::checked(at + self.entry_place(cluster)),
            None => None,
        }
    }

    /// How many bytes an entry touches. FAT12 entries are 12 bits and straddle byte
    /// boundaries.
    pub fn fat_entry_width(&self) -> (r: u64)
        ensures
            r == self.entry_width(),
    {
        match self.kind {
            FatKind::Fat32 => 4,
            _ => 2,
        }
    }

    /// Offset of the entry for `cluster` in FAT copy `fat`.
    pub fn fat_entry_offset(&self, fat: u64, cluster: u64) -> (r: Option<u64>)
        ensures
            r == self.entry_at(fat as int, cluster as int),
    {
        let at: u64 = match self.fat_offset(fat) {
            Some(at) => at,
            None => {
                return None;
            },
        };
        match self.kind {
            FatKind::Fat12 => match cluster.checked_add(cluster / 2) {
                Some(off) => at.checked_add(off),
                None => None,
            },
            FatKind::Fat16 => mul_add(cluster, 2, at),
            FatKind::Fat32 => mul_add(cluster, 4, at),
        }
    }

    /// Bytes that the volume claims, at least a boot sector.
    pub open spec fn claimed(self) -> u64 {
        let n = common::saturated(self.total_sectors * self.bytes_per_sector);
        if n < 512 {
            512
        } else {
            n
        }
    }

    /// Bytes that the volume claims, at least a boot sector.
    pub fn volume_bytes(&self) -> (r: u64)
        ensures
            r == self.claimed(),
    {
        let n: u64 = saturating_mul(self.total_sectors, self.bytes_per_sector);
        if n < 512 {
            512
        } else {
            n
        }
    }
}

// --------------------------------------------------------------------------- laws

/// Geometry that is derived is only called sane where it describes a volume: the kind
/// is the one that the cluster count makes, and every cluster that exists lies after
/// the FATs and before the end that the volume claims.
pub proof fn lemma_clusters_lie_in_volume(b: Seq<u8>, base: u64, cluster: int)
    requires
        geom_of(bpb_of(b), base).in_range(cluster),
    ensures
        ({
            let g = geom_of(bpb_of(b), base);
            &&& g.kind == kind::kind_of(g.cluster_count as int)
            &&& g.bytes_per_cluster == g.sectors_per_cluster * g.bytes_per_sector
            &&& g.data_start >= base
            &&& g.data_start + (cluster - 1) * g.bytes_per_cluster <= base + g.claimed()
        }),
{
    let r = bpb_of(b);
    let g = geom_of(r, base);
    lemma_layout_bounds(r, base);
    let d = r.total() - r.meta();
    let s = r.sectors_per_cluster as int;
    let p = r.bytes_per_sector as int;
    let k = r.clusters();
    assert(k * s <= d) by (nonlinear_arith)
        requires
            k == d / s,
            s >= 1,
            d >= 0,
    ;
    assert((cluster - 1) * (s * p) <= d * p) by (nonlinear_arith)
        requires
            cluster - 1 <= k,
            k * s <= d,
            s >= 1,
            p >= 1,
    ;
    assert(r.data_start(base) == base + r.meta() * p) by (nonlinear_arith)
        requires
            r.data_start(base) == r.front() * p + base + r.root_dir_sectors() * p,
            r.meta() == r.front() + r.root_dir_sectors(),
    ;
    assert(r.meta() * p + d * p == r.total() * p) by (nonlinear_arith)
        requires
            d == r.total() - r.meta(),
    ;
    assert(r.total() * p <= 0xFFFF_FFFF * 4096) by (nonlinear_arith)
        requires
            0 <= r.total() <= 0xFFFF_FFFF,
            0 <= p <= 4096,
    ;
    assert(r.meta() * p >= 0) by (nonlinear_arith)
        requires
            r.meta() >= 0,
            p >= 0,
    ;
}

/// A cluster of a usable volume is at least one sector of the smallest size.
pub proof fn lemma_sane_clusters_hold_a_sector(r: Bpb, base: u64)
    ensures
        geom_of(r, base).sane ==> geom_of(r, base).bytes_per_cluster >= 512,
{
    if geom_of(r, base).sane {
        assert(512 <= r.sectors_per_cluster * r.bytes_per_sector <= u64::MAX) by (nonlinear_arith)
            requires
                0 < r.sectors_per_cluster <= 128,
                512 <= r.bytes_per_sector <= 4096,
        ;
    }
}

} // verus!
