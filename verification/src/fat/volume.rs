//! A whole volume: recognising one, and reading everything in it.

use crate::common;
use crate::common::{saturating_mul, u16_or_zero};
use crate::extent::Span;
use crate::fat::boot;
use crate::fat::boot::{
    boot_sector, read_backup, read_fsinfo, BackupBoot, BootSector, FsInfo,
};
use crate::fat::directory::{DirExpander, DirSource};
use crate::fat::finding::Finding;
use crate::fat::geometry;
use crate::fat::geometry::{is_cluster_size, is_sector_size, Geom};
use crate::fat::kind;
use crate::fat::kind::FatKind;
use crate::fat::tables::{fat_area, FatArea};
use crate::source::{BlockSource, Device, ReadOutcome};
use crate::status::Status;
use crate::text;
use crate::text::Text;
use vstd::prelude::*;

verus! {

// -------------------------------------------------------------------- the probe

/// Recognises FAT12, FAT16 and FAT32 volumes.
#[derive(Clone, Copy, Debug)]
pub struct FatProbe;

/// The name an exFAT boot sector carries.
pub open spec fn exfat_name() -> Seq<u8> {
    seq![0x45u8, 0x58, 0x46, 0x41, 0x54, 0x20, 0x20, 0x20]
}

/// The name an NTFS boot sector carries.
pub open spec fn ntfs_name() -> Seq<u8> {
    seq![0x4Eu8, 0x54, 0x46, 0x53, 0x20, 0x20, 0x20, 0x20]
}

/// The sector has the shape of a FAT boot sector and is not one of the two others that
/// share it. NTFS and exFAT leave the reserved sectors and the number of FATs at zero,
/// because they have no FAT in this sense.
pub open spec fn has_shape(b: Seq<u8>) -> bool {
    &&& b.len() >= 512
    &&& b[0x1FE] == 0x55 && b[0x1FF] == 0xAA
    &&& (b[0] == 0xEB && b[2] == 0x90) || b[0] == 0xE9
    &&& b.subrange(3, 11) != exfat_name()
    &&& b.subrange(3, 11) != ntfs_name()
    &&& geometry::sector_size_ok(common::le16(b, 0x0B) as u64)
    &&& geometry::cluster_size_ok(b[0x0D] as u64)
    &&& common::le16(b, 0x0E) != 0
    &&& b[0x10] != 0
}

/// The geometry that the sector `b` at `at` describes on that device.
pub open spec fn geometry_of(dev: Device, b: Seq<u8>, at: u64) -> Geom {
    geometry::geom_of(geometry::bpb_of(b), at).on_device(dev.len)
}

/// The volume that the geometry describes ends on the device.
pub open spec fn fits(dev: Device, g: Geom, at: u64) -> bool {
    at + g.claimed() <= u64::MAX && at + g.claimed() <= dev.len
}

/// What the extended part adds: a signature it may carry, and a type string.
pub open spec fn ext_points(b: Seq<u8>, kind: FatKind) -> int {
    let (sig, name): (int, int) = if kind == FatKind::Fat32 { (0x42, 0x52) } else { (0x26, 0x36) };
    (if b[sig] == 0x28 || b[sig] == 0x29 {
        10int
    } else {
        0
    }) + (if b[name] == 0x46 && b[name + 1] == 0x41 && b[name + 2] == 0x54 {
        10int
    } else {
        0
    })
}

/// How sure the bytes at `at` make one that this is a FAT volume.
pub open spec fn score_of(dev: Device, at: u64) -> int {
    let r = dev.read(at, 512);
    let b = r.data;
    let g = geometry_of(dev, b, at);
    if r.refused() || !has_shape(b) {
        0
    } else if !g.sane {
        40
    } else {
        75 + (if b[0x15] == 0xF0 || b[0x15] >= 0xF8 {
            5int
        } else {
            0
        }) + ext_points(b, g.kind) - (if fits(dev, g, at) {
            0int
        } else {
            10
        })
    }
}

fn named(b: &[u8], want: [u8; 8]) -> (r: bool)
    requires
        b@.len() >= 512,
    ensures
        r == (b@.subrange(3, 11) == want@),
{
    let mut i: usize = 0;
    while i < 8
        invariant
            i <= 8,
            b@.len() >= 512,
            forall|j: int| 0 <= j < i ==> #[trigger] b@.subrange(3, 11)[j] == want@[j],
        decreases 8 - i,
    {
        assert(b@.subrange(3, 11)[i as int] == b@[i + 3]);
        if b[i + 3] != want[i] {
            return false;
        }
        i += 1;
    }
    assert(b@.subrange(3, 11) =~= want@);
    true
}

fn shaped(b: &[u8]) -> (r: bool)
    ensures
        r == has_shape(b@),
{
    if b.len() < 512 {
        return false;
    }
    let exfat: [u8; 8] = [0x45, 0x58, 0x46, 0x41, 0x54, 0x20, 0x20, 0x20];
    let ntfs: [u8; 8] = [0x4E, 0x54, 0x46, 0x53, 0x20, 0x20, 0x20, 0x20];
    assert(exfat@ =~= exfat_name());
    assert(ntfs@ =~= ntfs_name());
    b[0x1FE] == 0x55 && b[0x1FF] == 0xAA && (b[0] == 0xEB && b[2] == 0x90 || b[0] == 0xE9)
        && !named(b, exfat) && !named(b, ntfs) && is_sector_size(u16_or_zero(b, 0x0B) as u64)
        && is_cluster_size(b[0x0D] as u64) && u16_or_zero(b, 0x0E) != 0 && b[0x10] != 0
}

fn on_device<S: BlockSource>(src: &S, g: &Geom, at: u64) -> (r: bool)
    ensures
        r == fits(src.device(), *g, at),
{
    match at.checked_add(g.volume_bytes()) {
        Some(end) => end <= src.len(),
        None => false,
    }
}

impl FatProbe {
    /// The identifier of the format.
    pub fn id(&self) -> (r: &'static str)
        ensures
            r@ == "fat"@,
    {
        "fat"
    }

    pub fn name(&self) -> (r: &'static str)
        ensures
            r@ == "FAT12/16/32 volume"@,
    {
        "FAT12/16/32 volume"
    }

    /// Score the bytes at `at`.
    ///
    /// A FAT boot sector, an exFAT boot sector and an NTFS boot sector all begin with a
    /// jump and an 8-byte name and all end with 55 AA. The discriminators are the name, a
    /// sector size that can be one, and the reserved sectors and number of FATs.
    /// Everything past that is degree of confidence, not identity: a volume that claims
    /// more sectors than exist is still a FAT volume, but not sold as certain.
    pub fn probe<S: BlockSource>(&self, src: &S, at: u64) -> (r: u8)
        ensures
            r == score_of(src.device(), at),
    {
        let (b, outcome) = src.read_vec(at, 512);
        if outcome == ReadOutcome::Unreadable || !shaped(&b) {
            return 0;
        }
        let (g, _findings): (Geom, Vec<Finding>) = Geom::derive(&b, at);
        let g = g.with_device_len(src.len());
        if !g.sane {
            return 40;
        }
        let mut score: u8 = 75;
        if b[0x15] == 0xF0 || b[0x15] >= 0xF8 {
            score += 5;
        }
        let (sig, name): (usize, usize) = if g.kind == FatKind::Fat32 {
            (0x42, 0x52)
        } else {
            (0x26, 0x36)
        };
        if b[sig] == 0x28 || b[sig] == 0x29 {
            score += 10;
        }
        if b[name] == 0x46 && b[name + 1] == 0x41 && b[name + 2] == 0x54 {
            score += 10;
        }
        if !on_device(src, &g, at) {
            score -= 10;
        }
        score
    }

    /// Open the volume at `at`, whatever it scored.
    pub fn open<'a, S: BlockSource>(&self, src: &'a S, at: u64) -> (r: FatReader<'a, S>)
        ensures
            r.source() == src,
            r.start() == at,
    {
        FatReader::new(src, at)
    }
}

/// A score is at most 100. A sector that carries the name of exFAT or NTFS scores
/// nothing, and so does one without the closing signature. More than 40 takes geometry
/// that is consistent with itself, and more than 90 a volume that ends on its device.
pub proof fn lemma_scores_are_earned(dev: Device, at: u64)
    ensures
        0 <= score_of(dev, at) <= 100,
        ({
            let b = dev.read(at, 512).data;
            let g = geometry_of(dev, b, at);
            &&& b.subrange(3, 11) == exfat_name() ==> score_of(dev, at) == 0
            &&& b.subrange(3, 11) == ntfs_name() ==> score_of(dev, at) == 0
            &&& score_of(dev, at) > 0 ==> b[0x1FE] == 0x55 && b[0x1FF] == 0xAA
            &&& score_of(dev, at) > 40 ==> g.sane
            &&& score_of(dev, at) > 90 ==> fits(dev, g, at)
        }),
{
}

// ------------------------------------------------------------ computed geometry

/// The numbers derived from the boot sector, none of which are stored on the volume.
/// Every offset elsewhere is a consequence of them.
#[derive(Clone, Copy, Debug, PartialEq, Eq, Structural)]
pub struct Computed {
    pub fat_type: FatKind,
    pub cluster_count: u64,
    pub data_sectors: u64,
    pub root_dir_sectors: u64,
    pub fat_size: u64,
    pub total_sectors: u64,
    pub bytes_per_cluster: u64,
    pub fat_0_offset: u64,
    pub cluster_2_offset: u64,
    /// The fixed root directory, which FAT32 does not have.
    pub root_dir_offset: Option<u64>,
}

/// The computed numbers of a geometry.
pub open spec fn computed_of(g: Geom) -> Computed {
    Computed {
        fat_type: g.kind,
        cluster_count: g.cluster_count,
        data_sectors: g.data_sectors,
        root_dir_sectors: g.root_dir_sectors,
        fat_size: g.fat_size,
        total_sectors: g.total_sectors,
        bytes_per_cluster: g.bytes_per_cluster,
        fat_0_offset: g.fat_start,
        cluster_2_offset: g.data_start,
        root_dir_offset: if g.kind == FatKind::Fat32 {
            None
        } else {
            Some(g.root_dir_start)
        },
    }
}

/// Collect the numbers derived from the boot sector.
pub fn compute(g: &Geom) -> (r: Computed)
    ensures
        r == computed_of(*g),
{
    Computed {
        fat_type: g.kind,
        cluster_count: g.cluster_count,
        data_sectors: g.data_sectors,
        root_dir_sectors: g.root_dir_sectors,
        fat_size: g.fat_size,
        total_sectors: g.total_sectors,
        bytes_per_cluster: g.bytes_per_cluster,
        fat_0_offset: g.fat_start,
        cluster_2_offset: g.data_start,
        root_dir_offset: if g.kind == FatKind::Fat32 { None } else { Some(g.root_dir_start) },
    }
}

// ------------------------------------------------------------- the root directory

/// The root directory, before it is listed. On FAT32 it is an ordinary directory in a
/// cluster chain; on FAT12 and FAT16 a fixed area that cannot grow.
#[derive(Clone, Copy, Debug, PartialEq, Eq, Structural)]
pub struct RootDir {
    pub span: Span,
    /// The listing, unless the root lies outside the data region.
    pub dir: Option<DirExpander>,
    pub finding: Option<Finding>,
    pub geom: Geom,
}

/// The root directory of a volume with that geometry.
pub open spec fn root_of(g: Geom) -> RootDir {
    if g.kind == FatKind::Fat32 {
        match g.cluster_at(g.root_cluster as int) {
            Some(at) => RootDir {
                span: Span::of_bytes(at, g.bytes_per_cluster),
                dir: Some(
                    DirExpander { geom: g, source: DirSource::Chain(g.root_cluster), depth: 0 },
                ),
                finding: None,
                geom: g,
            },
            None => RootDir {
                span: Span::of_bytes(g.data_start, g.bytes_per_cluster),
                dir: None,
                finding: Some(Finding::RootOutside { cluster: g.root_cluster }),
                geom: g,
            },
        }
    } else {
        let len = common::saturated(g.root_dir_sectors * g.bytes_per_sector);
        RootDir {
            span: Span::of_bytes(g.root_dir_start, len),
            dir: Some(
                DirExpander {
                    geom: g,
                    source: DirSource::Fixed(g.root_dir_start, len),
                    depth: 0,
                },
            ),
            finding: None,
            geom: g,
        }
    }
}

/// Find the root directory.
pub fn root_dir(g: &Geom) -> (r: RootDir)
    ensures
        r == root_of(*g),
{
    if g.kind == FatKind::Fat32 {
        match g.cluster_to_byte(g.root_cluster) {
            Some(at) => RootDir {
                span: Span::bytes(at, g.bytes_per_cluster),
                dir: Some(
                    DirExpander { geom: *g, source: DirSource::Chain(g.root_cluster), depth: 0 },
                ),
                finding: None,
                geom: *g,
            },
            None => RootDir {
                span: Span::bytes(g.data_start, g.bytes_per_cluster),
                dir: None,
                finding: Some(Finding::RootOutside { cluster: g.root_cluster }),
                geom: *g,
            },
        }
    } else {
        let len: u64 = saturating_mul(g.root_dir_sectors, g.bytes_per_sector);
        RootDir {
            span: Span::bytes(g.root_dir_start, len),
            dir: Some(
                DirExpander {
                    geom: *g,
                    source: DirSource::Fixed(g.root_dir_start, len),
                    depth: 0,
                },
            ),
            finding: None,
            geom: *g,
        }
    }
}

impl RootDir {
    /// What the directory is called.
    pub fn label(&self) -> (r: String)
        ensures
            r@ == if self.geom.kind == FatKind::Fat32 {
                "root directory (cluster "@ + text::dec(self.geom.root_cluster as int) + ")"@
            } else {
                "root directory ("@ + text::dec(self.geom.root_entries as int) + " entries)"@
            },
    {
        if self.geom.kind == FatKind::Fat32 {
            Text::of("root directory (cluster ").dec(self.geom.root_cluster).lit(")").done()
        } else {
            Text::of("root directory (").dec(self.geom.root_entries).lit(" entries)").done()
        }
    }
}

// -------------------------------------------------------------------- the volume

/// Everything in a volume that is read without being asked for.
#[derive(Debug)]
pub struct FatVolume {
    pub span: Span,
    pub geom: Geom,
    pub boot: BootSector,
    pub computed: Computed,
    pub fsinfo: Option<FsInfo>,
    pub backup: Option<BackupBoot>,
    pub area: Option<FatArea>,
    pub root: Option<RootDir>,
    /// What is said where the contents cannot be located.
    pub finding: Option<Finding>,
}

impl FatVolume {
    /// This is the volume at `base` of the device. Where the boot sector describes no
    /// usable volume, nothing it points at was followed.
    pub open spec fn describes(self, dev: Device, base: u64) -> bool {
        let r = dev.read(base, 512);
        let raw = geometry::bpb_of(r.data);
        let g = geometry_of(dev, r.data, base);
        &&& self.geom == g
        &&& self.span == Span::of_bytes(base, g.claimed())
        &&& self.boot@ == boot::boot_of(
            dev,
            r.data,
            r.refused(),
            g,
            geometry::derive_findings(raw, base),
            base,
        )
        &&& self.computed == computed_of(g)
        &&& if g.sane && g.kind == FatKind::Fat32 {
            &&& self.fsinfo matches Some(f) && f@ == boot::fsinfo_of(dev, g, r.data)
            &&& self.backup matches Some(b) && b@ == boot::backup_of(dev, g, r.data)
        } else {
            self.fsinfo is None && self.backup is None
        }
        &&& if g.sane {
            &&& self.area matches Some(a) && a.describes(g)
            &&& self.root == Some(root_of(g))
            &&& self.finding is None
        } else {
            &&& self.area is None
            &&& self.root is None
            &&& self.finding == Some(Finding::ContentsUnlocated)
        }
    }

    /// How serious the worst thing in the volume is, short of what is listed on demand.
    pub open spec fn severity(self) -> Status {
        self.boot@.severity().worse(
            match self.fsinfo {
                Some(f) => f@.severity(),
                None => Status::Clean,
            },
        ).worse(
            match self.backup {
                Some(b) => b@.severity(),
                None => Status::Clean,
            },
        ).worse(
            match self.area {
                Some(a) => one_severity(a.finding),
                None => Status::Clean,
            },
        ).worse(
            match self.root {
                Some(d) => one_severity(d.finding),
                None => Status::Clean,
            },
        ).worse(one_severity(self.finding))
    }

    /// How serious the worst thing in the volume is, short of what is listed on demand.
    pub fn deep_status(&self) -> (r: Status)
        ensures
            r == self.severity(),
    {
        let fsinfo = match &self.fsinfo {
            Some(f) => f.status(),
            None => Status::Clean,
        };
        let backup = match &self.backup {
            Some(b) => b.status(),
            None => Status::Clean,
        };
        let area = match &self.area {
            Some(a) => one_status(a.finding),
            None => Status::Clean,
        };
        let root = match &self.root {
            Some(d) => one_status(d.finding),
            None => Status::Clean,
        };
        self.boot.status().merge(fsinfo).merge(backup).merge(area).merge(root).merge(
            one_status(self.finding),
        )
    }

    /// What the volume is called.
    pub fn label(&self) -> (r: String)
        ensures
            r@ == if self.geom.sane {
                kind::kind_name(self.geom.kind)@ + " volume"@
            } else {
                "FAT volume (geometry unusable)"@
            },
    {
        if self.geom.sane {
            Text::of(self.geom.kind.name()).lit(" volume").done()
        } else {
            Text::of("FAT volume (geometry unusable)").done()
        }
    }
}

/// How serious a finding is, where there is one.
pub open spec fn one_severity(f: Option<Finding>) -> Status {
    match f {
        Some(f) => f.severity(),
        None => Status::Clean,
    }
}

fn one_status(f: Option<Finding>) -> (r: Status)
    ensures
        r == one_severity(f),
{
    match f {
        Some(f) => f.status(),
        None => Status::Clean,
    }
}

/// Reads the volume at one place on a device.
#[derive(Debug)]
pub struct FatReader<'a, S: BlockSource> {
    src: &'a S,
    base: u64,
}

impl<'a, S: BlockSource> FatReader<'a, S> {
    /// The device that is read.
    pub closed spec fn source(self) -> &'a S {
        self.src
    }

    /// Where the volume starts.
    pub closed spec fn start(self) -> u64 {
        self.base
    }

    pub fn new(src: &'a S, base: u64) -> (r: FatReader<'a, S>)
        ensures
            r.source() == src,
            r.start() == base,
    {
        FatReader { src, base }
    }

    /// The identifier of the format.
    pub fn id(&self) -> (r: &'static str)
        ensures
            r@ == "fat"@,
    {
        "fat"
    }

    pub fn base(&self) -> (r: u64)
        ensures
            r == self.start(),
    {
        self.base
    }

    /// The source that is read.
    pub(crate) fn device_source(&self) -> (r: &'a S)
        ensures
            r == self.source(),
    {
        self.src
    }

    /// The derived layout, for callers that want the numbers without the rest.
    pub fn geometry(&self) -> (r: Geom)
        ensures
            r == geometry_of(
                self.source().device(),
                self.source().device().read(self.start(), 512).data,
                self.start(),
            ),
            r.sane ==> r.bytes_per_cluster >= 512,
    {
        let (boot, _outcome) = self.src.read_vec(self.base, 512);
        proof {
            geometry::lemma_sane_clusters_hold_a_sector(geometry::bpb_of(boot@), self.base);
        }
        let (g, _findings): (Geom, Vec<Finding>) = Geom::derive(&boot, self.base);
        g.with_device_len(self.src.len())
    }

    /// Read the volume. Every part that can be read is, whatever is wrong with the rest.
    pub fn root(&self) -> (r: FatVolume)
        ensures
            r.describes(self.source().device(), self.start()),
    {
        let src = self.src;
        let (bytes, outcome) = src.read_vec(self.base, 512);
        let (g, derived): (Geom, Vec<Finding>) = Geom::derive(&bytes, self.base);
        let g = g.with_device_len(src.len());
        let span = Span::bytes(self.base, g.volume_bytes());
        let boot = boot_sector(src, &bytes, outcome, &g, derived, self.base);
        let computed = compute(&g);
        let big: bool = g.sane && g.kind == FatKind::Fat32;
        FatVolume {
            span,
            geom: g,
            boot,
            computed,
            fsinfo: if big { Some(read_fsinfo(src, &g, &bytes)) } else { None },
            backup: if big { Some(read_backup(src, &g, &bytes)) } else { None },
            area: if g.sane { Some(fat_area(&g)) } else { None },
            root: if g.sane { Some(root_dir(&g)) } else { None },
            finding: if g.sane { None } else { Some(Finding::ContentsUnlocated) },
        }
    }
}

} // verus!
