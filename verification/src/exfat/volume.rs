//! A whole volume: recognising one, and reading everything in it.

use crate::common;
use crate::common::{min_u64, saturating_mul};
use crate::desc::Record;
use crate::exfat::bitmap;
use crate::exfat::bitmap::Bitmap;
use crate::exfat::boot;
use crate::exfat::boot::{backup_diff, boot_region, BackupDiff, BootRegion};
use crate::exfat::desc;
use crate::exfat::directory;
use crate::exfat::directory::{root_metadata, Directory, Entry, Item, RootMeta};
use crate::exfat::entry::zero_from;
use crate::exfat::fat_table;
use crate::exfat::fat_table::{fat_table, FatTable, FatTableModel};
use crate::exfat::finding;
use crate::exfat::finding::{note, worst_of, Finding};
use crate::exfat::geometry;
use crate::exfat::geometry::Geometry;
use crate::exfat::upcase;
use crate::exfat::upcase::{upcase_table, UpcaseTable};
use crate::extent::Span;
use crate::source::{BlockSource, Device, ReadOutcome};
use crate::status::Status;
use vstd::prelude::*;

verus! {

// -------------------------------------------------------------------- the probe

/// Recognises exFAT volumes.
#[derive(Clone, Copy, Debug)]
pub struct ExfatProbe;

/// The eight bytes that separate exFAT from FAT and NTFS.
pub open spec fn has_name(sector: Seq<u8>) -> bool {
    sector.subrange(3, 11) == seq![0x45u8, 0x58, 0x46, 0x41, 0x54, 0x20, 0x20, 0x20]
}

/// How sure the bytes at `at` make one that this is an exFAT volume.
pub open spec fn score_of(dev: Device, at: u64) -> int {
    let r = dev.read(at, 512);
    let g = geometry::geometry_of(r.data, at, dev.sector_size);
    if r.refused() || r.data.len() < 512 || !has_name(r.data) {
        0
    } else {
        50 + (if common::le16(r.data, 0x1FE) == 0xAA55 {
            8int
        } else {
            0
        }) + (if zero_from(r.data.subrange(0x0B, 0x40), 0) {
            10int
        } else {
            0
        }) + (if r.data[0] == 0xEB && r.data[1] == 0x76 && r.data[2] == 0x90 {
            2int
        } else {
            0
        }) + (if g.trusted && g.consistent(dev.len) {
            30int
        } else {
            0
        })
    }
}

impl ExfatProbe {
    /// The identifier of the format.
    pub fn id(&self) -> (r: &'static str)
        ensures
            r@ == "exfat"@,
    {
        "exfat"
    }

    pub fn name(&self) -> (r: &'static str)
        ensures
            r@ == "exFAT volume"@,
    {
        "exFAT volume"
    }

    /// Score the bytes at `at`.
    ///
    /// A FAT, an exFAT and an NTFS boot sector all begin with a jump and all end with
    /// 55 AA. The one field that separates them is the name at offset 3, so nothing
    /// scores above zero without it; getting to 80 takes geometry that is consistent
    /// with itself, because a half-overwritten volume still has the name.
    pub fn probe<S: BlockSource>(&self, src: &S, at: u64) -> (r: u8)
        ensures
            r == score_of(src.device(), at),
    {
        let (sector, outcome) = src.read_vec(at, 512);
        if outcome == ReadOutcome::Unreadable || sector.len() < 512 {
            return 0;
        }
        let named: bool = sector[3] == 0x45 && sector[4] == 0x58 && sector[5] == 0x46 && sector[6]
            == 0x41 && sector[7] == 0x54 && sector[8] == 0x20 && sector[9] == 0x20 && sector[10]
            == 0x20;
        proof {
            let name = seq![0x45u8, 0x58, 0x46, 0x41, 0x54, 0x20, 0x20, 0x20];
            if named {
                assert(sector@.subrange(3, 11) =~= name);
            } else {
                let got = sector@.subrange(3, 11);
                if got == name {
                    assert(got[0] == sector@[3] && got[1] == sector@[4] && got[2] == sector@[5]
                        && got[3] == sector@[6] && got[4] == sector@[7] && got[5] == sector@[8]
                        && got[6] == sector@[9] && got[7] == sector@[10]);
                }
            }
        }
        if !named {
            return 0;
        }
        let mut score: u8 = 50;
        if sector[0x1FE] == 0x55 && sector[0x1FF] == 0xAA {
            score += 8;
        }
        let bpb: &[u8] = vstd::slice::slice_subrange(&sector, 0x0B, 0x40);
        if crate::exfat::entry::is_zero_from(bpb, 0) {
            score += 10;
        }
        if sector[0] == 0xEB && sector[1] == 0x76 && sector[2] == 0x90 {
            score += 2;
        }
        let (geo, _findings) = Geometry::from_boot(&sector, at, src.logical_sector_size());
        if geo.trusted && geo.self_consistent(src.len()) {
            score += 30;
        }
        score
    }

    /// Open the volume at `at`, whatever it scored.
    pub fn open<'a, S: BlockSource>(&self, src: &'a S, at: u64) -> (r: ExfatReader<'a, S>)
        ensures
            r.source() == src,
            r.start() == at,
    {
        ExfatReader::new(src, at)
    }
}

/// A score is at most 100; it is zero without the name; and it reaches 80 only with
/// geometry that is consistent with itself and fits the device.
pub proof fn lemma_confident_scores_need_geometry(dev: Device, at: u64)
    ensures
        0 <= score_of(dev, at) <= 100,
        score_of(dev, at) > 0 ==> has_name(dev.read(at, 512).data),
        score_of(dev, at) >= 80 ==> {
            let g = geometry::geometry_of(dev.read(at, 512).data, at, dev.sector_size);
            g.trusted && g.consistent(dev.len)
        },
{
}

// ------------------------------------------------------------ computed geometry

/// The numbers every other part is derived from, in one place.
#[derive(Clone, Copy, Debug, PartialEq, Eq, Structural)]
pub struct Computed {
    pub bytes_per_sector: u64,
    pub sectors_per_cluster: u64,
    pub cluster_size: u64,
    pub volume_size: u64,
    pub heap_offset: u64,
    pub heap_size: u64,
    pub last_cluster: u64,
    pub root_directory_offset: u64,
    /// Offsets of the FATs there are, at most two.
    pub fat_0_offset: Option<u64>,
    pub fat_1_offset: Option<u64>,
    pub finding: Option<Finding>,
}

/// `x`, or zero.
pub open spec fn or_zero(x: Option<u64>) -> u64 {
    match x {
        Some(v) => v,
        None => 0,
    }
}

/// The computed numbers of a geometry.
pub open spec fn computed_of(g: Geometry) -> Computed {
    Computed {
        bytes_per_sector: g.bytes_per_sector,
        sectors_per_cluster: g.sectors_per_cluster,
        cluster_size: g.cluster_size,
        volume_size: or_zero(g.size()),
        heap_offset: or_zero(g.heap_at()),
        heap_size: common::saturated(g.cluster_count * g.cluster_size),
        last_cluster: common::saturated(g.cluster_count + 1),
        root_directory_offset: or_zero(g.cluster_at(g.first_cluster_of_root as int)),
        fat_0_offset: if g.number_of_fats >= 1 { Some(or_zero(g.fat_at(0))) } else { None },
        fat_1_offset: if g.number_of_fats >= 2 { Some(or_zero(g.fat_at(1))) } else { None },
        finding: if g.trusted { None } else { Some(Finding::GeometryFallback) },
    }
}

fn value_or_zero(x: Option<u64>) -> (r: u64)
    ensures
        r == or_zero(x),
{
    match x {
        Some(v) => v,
        None => 0,
    }
}

/// Work out the numbers that the boot sector's shifts and offsets mean.
pub fn compute(geo: &Geometry) -> (r: Computed)
    ensures
        r == computed_of(*geo),
{
    Computed {
        bytes_per_sector: geo.bytes_per_sector,
        sectors_per_cluster: geo.sectors_per_cluster,
        cluster_size: geo.cluster_size,
        volume_size: value_or_zero(geo.volume_bytes()),
        heap_offset: value_or_zero(geo.heap_byte()),
        heap_size: saturating_mul(geo.cluster_count, geo.cluster_size),
        last_cluster: geo.last_cluster(),
        root_directory_offset: value_or_zero(geo.cluster_byte(geo.first_cluster_of_root)),
        fat_0_offset: if geo.number_of_fats >= 1 {
            Some(value_or_zero(geo.fat_byte(0)))
        } else {
            None
        },
        fat_1_offset: if geo.number_of_fats >= 2 {
            Some(value_or_zero(geo.fat_byte(1)))
        } else {
            None
        },
        finding: if geo.trusted { None } else { Some(Finding::GeometryFallback) },
    }
}

// -------------------------------------------------------------------- the volume

/// Everything in a volume that is read without being asked for.
#[derive(Debug)]
pub struct ExfatVolume {
    pub span: Span,
    pub geo: Geometry,
    pub main: BootRegion,
    pub diff: BackupDiff,
    pub backup: BootRegion,
    pub computed: Computed,
    pub fats: Vec<FatTable>,
    pub root: Option<Directory>,
    pub bitmap: Option<Bitmap>,
    pub upcase: Option<UpcaseTable>,
    /// What the bitmap says about the length its directory entry declares.
    pub bitmap_length: Option<Finding>,
    /// What the table says about the checksum its directory entry stores.
    pub upcase_checksum: Option<Finding>,
    pub findings: Vec<Finding>,
}

/// The span of a volume: what it declares, or its boot regions where it declares
/// nothing usable, but never past the end of the device.
pub open spec fn span_of(g: Geometry, device_len: u64) -> Span {
    let declared = match g.size() {
        Some(b) if b > 0 => b,
        _ => common::saturated(2 * desc::BOOT_REGION_SECTORS * g.bytes_per_sector),
    };
    let left: u64 = if device_len > g.base { (device_len - g.base) as u64 } else { 1 };
    Span::of_bytes(g.base, if declared <= left { declared } else { left })
}

/// The models of the FATs of a volume.
pub open spec fn fats_of(dev: Device, g: Geometry) -> Seq<FatTableModel> {
    let n = if g.number_of_fats <= 2 { g.number_of_fats } else { 2 };
    Seq::new(n as nat, |i: int| fat_table::fat_of(dev, g, i as u64))
}

/// The models of a list of FATs.
pub open spec fn fat_models(fats: Seq<FatTable>) -> Seq<FatTableModel> {
    Seq::new(fats.len(), |i: int| fats[i]@)
}

/// The root directory of a volume.
pub open spec fn root_of(dev: Device, g: Geometry) -> directory::DirectoryModel {
    directory::directory_of(
        dev,
        g,
        g.first_cluster_of_root,
        false,
        None,
        "root directory"@,
        0,
    )
}

/// What the root directory's critical entries say by being absent.
pub open spec fn root_findings(trusted: bool, meta: RootMeta) -> Seq<Finding> {
    if trusted {
        Seq::<Finding>::empty() + finding::when(meta.bitmap is None, Finding::NoBitmapEntry)
            + finding::when(meta.upcase is None, Finding::NoUpcaseEntry) + finding::when(
            !meta.has_label,
            Finding::NoVolumeLabel,
        )
    } else {
        seq![Finding::GeometryUnusable]
    }
}

impl ExfatVolume {
    /// This is the volume at `base` of the device. Where the geometry cannot be
    /// trusted, nothing it points at was followed.
    pub open spec fn describes(self, dev: Device, base: u64) -> bool {
        let boot = dev.read(base, 512).data;
        let g = geometry::geometry_of(boot, base, dev.sector_size);
        let meta = directory::meta_of(root_of(dev, g).items);
        &&& self.geo == g
        &&& self.span == span_of(g, dev.len)
        &&& self.main.describes(dev, g, 0, geometry::shift_findings(boot, dev.sector_size))
        &&& self.backup.describes(dev, g, 12, Seq::empty())
        &&& self.diff@ == boot::backup_diff_of(dev, g)
        &&& self.computed == computed_of(g)
        &&& self.findings@ == root_findings(g.trusted, meta)
        &&& !g.trusted ==> {
            &&& self.fats@.len() == 0
            &&& self.root is None
            &&& self.bitmap is None
            &&& self.upcase is None
            &&& self.bitmap_length is None
            &&& self.upcase_checksum is None
        }
        &&& g.trusted ==> {
            &&& fat_models(self.fats@) == fats_of(dev, g)
            &&& self.root matches Some(d) && d@ == root_of(dev, g)
            &&& match meta.bitmap {
                Some(r) => self.bitmap matches Some(b) && b@ == bitmap::bitmap_of(dev, g, r),
                None => self.bitmap is None,
            }
            &&& match meta.upcase {
                Some(r) => self.upcase matches Some(u) && u@ == upcase::upcase_of(dev, g, r),
                None => self.upcase is None,
            }
            &&& self.bitmap_length == match meta.bitmap {
                Some(r) => bitmap_length_finding(dev, g, r),
                None => None,
            }
            &&& self.upcase_checksum == match meta.upcase {
                Some(r) => upcase_checksum_finding(dev, g, r),
                None => None,
            }
        }
    }
}

/// What the bitmap says about the length its entry declares.
pub open spec fn bitmap_length_finding(dev: Device, g: Geometry, r: directory::MetaRef) -> Option<
    Finding,
> {
    let b = bitmap::bitmap_of(dev, g, r);
    if b.length_matches {
        None
    } else {
        Some(Finding::ComputedDiffers { stored: r.data_length, computed: b.expected_length })
    }
}

/// What the up-case table says about the checksum its entry stores.
pub open spec fn upcase_checksum_finding(dev: Device, g: Geometry, r: directory::MetaRef) -> Option<
    Finding,
> {
    match upcase::upcase_of(dev, g, r).computed {
        Some(sum) => if r.stored_checksum == Some(sum) {
            None
        } else {
            Some(
                Finding::ComputedDiffers { stored: or_zero(r.stored_checksum), computed: sum },
            )
        },
        None => None,
    }
}

/// Reads the volume at one place on a device.
#[derive(Debug)]
pub struct ExfatReader<'a, S: BlockSource> {
    src: &'a S,
    base: u64,
}

impl<'a, S: BlockSource> ExfatReader<'a, S> {
    /// The device that is read.
    pub closed spec fn source(self) -> &'a S {
        self.src
    }

    /// Where the volume starts.
    pub closed spec fn start(self) -> u64 {
        self.base
    }

    pub fn new(src: &'a S, base: u64) -> (r: ExfatReader<'a, S>)
        ensures
            r.source() == src,
            r.start() == base,
    {
        ExfatReader { src, base }
    }

    /// The identifier of the format.
    pub fn id(&self) -> (r: &'static str)
        ensures
            r@ == "exfat"@,
    {
        "exfat"
    }

    pub fn base(&self) -> (r: u64)
        ensures
            r == self.start(),
    {
        self.base
    }

    /// The source that is read.
    pub(crate) fn device_source(&self) -> (r: &'a S)
        ensures
            r == self.source(),
    {
        self.src
    }

    fn read_fats(&self, geo: &Geometry) -> (r: Vec<FatTable>)
        ensures
            fat_models(r@) == fats_of(self.source().device(), *geo),
    {
        let n: u64 = min_u64(geo.number_of_fats, 2);
        let mut fats: Vec<FatTable> = Vec::new();
        let mut i: u64 = 0;
        while i < n
            invariant
                i <= n,
                fat_models(fats@) =~= Seq::new(
                    i as nat,
                    |j: int| fat_table::fat_of(self.source().device(), *geo, j as u64),
                ),
            decreases n - i,
        {
            let t = fat_table(self.src, geo, i);
            let ghost before = fats@;
            fats.push(t);
            assert(fat_models(fats@) =~= fat_models(before).push(t@));
            i += 1;
        }
        fats
    }

    /// Read the volume. Every part that can be read is, whatever is wrong with the
    /// rest.
    pub fn root(&self) -> (r: ExfatVolume)
        ensures
            r.describes(self.source().device(), self.start()),
    {
        let src = self.src;
        let (boot_raw, _outcome) = src.read_vec(self.base, 512);
        let (geo, geo_findings) = Geometry::from_boot(
            &boot_raw,
            self.base,
            src.logical_sector_size(),
        );
        let declared: u64 = match geo.volume_bytes() {
            Some(b) if b > 0 => b,
            _ => saturating_mul(2 * desc::BOOT_REGION_SECTORS, geo.bytes_per_sector),
        };
        let device_len: u64 = src.len();
        let left: u64 = if device_len > self.base { device_len - self.base } else { 1 };
        let span = Span::bytes(self.base, min_u64(declared, left));

        let main = boot_region(src, &geo, 0, geo_findings);
        let backup = boot_region(src, &geo, desc::BACKUP_BOOT_SECTOR, Vec::new());
        let diff = backup_diff(src, &geo);
        let computed = compute(&geo);
        let mut findings: Vec<Finding> = Vec::new();
        if !geo.trusted {
            findings.push(Finding::GeometryUnusable);
            assert(findings@ =~= seq![Finding::GeometryUnusable]);
            return ExfatVolume {
                span,
                geo,
                main,
                diff,
                backup,
                computed,
                fats: Vec::new(),
                root: None,
                bitmap: None,
                upcase: None,
                bitmap_length: None,
                upcase_checksum: None,
                findings,
            };
        }
        let fats: Vec<FatTable> = self.read_fats(&geo);
        let root = directory::directory(
            src,
            &geo,
            geo.first_cluster_of_root,
            false,
            None,
            crate::text::Text::of("root directory").done(),
            0,
        );
        let meta = root_metadata(&root);
        let (bitmap, bitmap_length): (Option<Bitmap>, Option<Finding>) = match meta.bitmap {
            Some(r) => {
                let b = bitmap::bitmap(src, &geo, r);
                let f = if b.length_matches {
                    None
                } else {
                    Some(
                        Finding::ComputedDiffers {
                            stored: r.data_length,
                            computed: b.expected_length,
                        },
                    )
                };
                (Some(b), f)
            },
            None => (None, None),
        };
        let (upcase, upcase_checksum): (Option<UpcaseTable>, Option<Finding>) = match meta.upcase {
            Some(r) => {
                let u = upcase_table(src, &geo, r);
                let f = match u.computed {
                    Some(sum) => {
                        let (same, stored): (bool, u64) = match r.stored_checksum {
                            Some(v) => (v == sum, v),
                            None => (false, 0),
                        };
                        if same {
                            None
                        } else {
                            Some(Finding::ComputedDiffers { stored, computed: sum })
                        }
                    },
                    None => None,
                };
                (Some(u), f)
            },
            None => (None, None),
        };
        note(&mut findings, meta.bitmap.is_none(), Finding::NoBitmapEntry);
        note(&mut findings, meta.upcase.is_none(), Finding::NoUpcaseEntry);
        note(&mut findings, !meta.has_label, Finding::NoVolumeLabel);
        ExfatVolume {
            span,
            geo,
            main,
            diff,
            backup,
            computed,
            fats,
            root: Some(root),
            bitmap,
            upcase,
            bitmap_length,
            upcase_checksum,
            findings,
        }
    }
}

// ------------------------------------------------------------- all the findings

/// The finding of an option, as a list.
pub open spec fn listed(f: Option<Finding>) -> Seq<Finding> {
    match f {
        Some(f) => seq![f],
        None => Seq::empty(),
    }
}

fn add_one(out: &mut Vec<Finding>, f: Option<Finding>)
    ensures
        final(out)@ == old(out)@ + listed(f),
{
    if let Some(f) = f {
        out.push(f);
    }
    assert(out@ =~= old(out)@ + listed(f));
}

fn add_all(out: &mut Vec<Finding>, more: &Vec<Finding>)
    ensures
        final(out)@ == old(out)@ + more@,
{
    let mut i: usize = 0;
    while i < more.len()
        invariant
            i <= more@.len(),
            out@ =~= old(out)@ + more@.take(i as int),
        decreases more@.len() - i,
    {
        out.push(more[i]);
        i += 1;
    }
    assert(more@.take(i as int) =~= more@);
}

/// What the extended boot sectors say, in order.
pub open spec fn ext_findings(exts: Seq<boot::ExtSector>) -> Seq<Finding>
    decreases exts.len(),
{
    if exts.len() == 0 {
        Seq::empty()
    } else {
        ext_findings(exts.drop_last()) + listed(exts.last().finding)
    }
}

impl BootRegion {
    /// Everything that is said about the region.
    pub open spec fn all_findings(self) -> Seq<Finding> {
        self.findings@ + self.boot_findings@ + ext_findings(self.ext_sectors@) + (match self.oem {
            Some(o) => o.findings@,
            None => Seq::empty(),
        }) + listed(self.reserved) + (match self.checksum {
            Some(c) => c.findings@,
            None => Seq::empty(),
        })
    }

    fn collect(&self, out: &mut Vec<Finding>)
        ensures
            final(out)@ == old(out)@ + self.all_findings(),
    {
        add_all(out, &self.findings);
        add_all(out, &self.boot_findings);
        let ghost start = out@;
        let mut i: usize = 0;
        while i < self.ext_sectors.len()
            invariant
                i <= self.ext_sectors@.len(),
                out@ =~= start + ext_findings(self.ext_sectors@.take(i as int)),
            decreases self.ext_sectors@.len() - i,
        {
            assert(self.ext_sectors@.take(i + 1).drop_last() =~= self.ext_sectors@.take(
                i as int,
            ));
            add_one(out, self.ext_sectors[i].finding);
            i += 1;
        }
        assert(self.ext_sectors@.take(i as int) =~= self.ext_sectors@);
        if let Some(o) = &self.oem {
            add_all(out, &o.findings);
        }
        add_one(out, self.reserved);
        if let Some(c) = &self.checksum {
            add_all(out, &c.findings);
        }
        assert(out@ =~= old(out)@ + self.all_findings());
    }
}

/// What the differing fields say, in order.
pub open spec fn diff_findings(fields: Seq<boot::FieldDiff>) -> Seq<Finding> {
    Seq::new(fields.len(), |i: int| fields[i].as_finding())
}

impl BackupDiff {
    /// Everything that is said about the comparison.
    pub open spec fn all_findings(self) -> Seq<Finding> {
        seq![self.verdict] + diff_findings(self.fields@)
    }

    fn collect(&self, out: &mut Vec<Finding>)
        ensures
            final(out)@ == old(out)@ + self.all_findings(),
    {
        out.push(self.verdict);
        let ghost start = out@;
        let mut i: usize = 0;
        while i < self.fields.len()
            invariant
                i <= self.fields@.len(),
                out@ =~= start + diff_findings(self.fields@).take(i as int),
            decreases self.fields@.len() - i,
        {
            out.push(self.fields[i].finding());
            i += 1;
        }
        assert(out@ =~= old(out)@ + self.all_findings());
    }
}

impl Item {
    /// Everything that is said about the row.
    pub open spec fn all_findings(self) -> Seq<Finding> {
        self@.place_findings() + match self.entry {
            Entry::End(_) => Seq::empty(),
            Entry::ZeroedType(_) => Seq::empty(),
            Entry::Single(s) => s.findings@ + (match s.checksum {
                Some(c) => listed(c.finding),
                None => Seq::empty(),
            }),
            Entry::File(s) => s.findings@ + listed(s.checksum.finding) + (match s.data {
                Some(d) => d.findings@,
                None => Seq::empty(),
            }),
        }
    }

    fn collect(&self, out: &mut Vec<Finding>)
        ensures
            final(out)@ == old(out)@ + self.all_findings(),
    {
        let place: Vec<Finding> = self.place();
        add_all(out, &place);
        match &self.entry {
            Entry::End(_) => {},
            Entry::ZeroedType(_) => {},
            Entry::Single(s) => {
                add_all(out, &s.findings);
                if let Some(c) = &s.checksum {
                    add_one(out, c.finding);
                }
            },
            Entry::File(s) => {
                add_all(out, &s.findings);
                add_one(out, s.checksum.finding);
                if let Some(d) = &s.data {
                    add_all(out, &d.findings);
                }
            },
        }
        assert(out@ =~= old(out)@ + self.all_findings());
    }
}

/// What the rows of a directory say, in order.
pub open spec fn item_findings(items: Seq<Item>) -> Seq<Finding>
    decreases items.len(),
{
    if items.len() == 0 {
        Seq::empty()
    } else {
        item_findings(items.drop_last()) + items.last().all_findings()
    }
}

impl Directory {
    /// Everything that is said about the directory and its rows.
    pub open spec fn all_findings(self) -> Seq<Finding> {
        self.findings@ + item_findings(self.items@)
    }

    /// Collect everything that is said about the directory and its rows.
    pub fn collect(&self, out: &mut Vec<Finding>)
        ensures
            final(out)@ == old(out)@ + self.all_findings(),
    {
        add_all(out, &self.findings);
        let ghost start = out@;
        let mut i: usize = 0;
        while i < self.items.len()
            invariant
                i <= self.items@.len(),
                out@ =~= start + item_findings(self.items@.take(i as int)),
            decreases self.items@.len() - i,
        {
            assert(self.items@.take(i + 1).drop_last() =~= self.items@.take(i as int));
            self.items[i].collect(out);
            i += 1;
        }
        assert(self.items@.take(i as int) =~= self.items@);
        assert(out@ =~= old(out)@ + self.all_findings());
    }
}

/// What the FATs say, in order.
pub open spec fn fat_findings(fats: Seq<FatTable>) -> Seq<Finding>
    decreases fats.len(),
{
    if fats.len() == 0 {
        Seq::empty()
    } else {
        fat_findings(fats.drop_last()) + fats.last().findings@
    }
}

impl ExfatVolume {
    /// What the parts that the geometry points at say.
    pub open spec fn heap_findings(self) -> Seq<Finding> {
        fat_findings(self.fats@) + (match self.root {
            Some(d) => d.all_findings(),
            None => Seq::empty(),
        }) + (match self.bitmap {
            Some(b) => b.findings@ + (match b.crosscheck {
                Some(c) => c.findings@,
                None => Seq::empty(),
            }),
            None => Seq::empty(),
        }) + (match self.upcase {
            Some(u) => u.findings@,
            None => Seq::empty(),
        })
    }

    /// Everything that is said about the volume and everything read in it.
    pub open spec fn all_findings(self) -> Seq<Finding> {
        self.findings@ + self.main.all_findings() + self.diff.all_findings()
            + self.backup.all_findings() + listed(self.computed.finding) + self.heap_findings()
            + listed(self.bitmap_length) + listed(self.upcase_checksum)
    }

    fn collect_heap(&self, out: &mut Vec<Finding>)
        ensures
            final(out)@ == old(out)@ + self.heap_findings(),
    {
        let ghost start = out@;
        let mut i: usize = 0;
        while i < self.fats.len()
            invariant
                i <= self.fats@.len(),
                out@ =~= start + fat_findings(self.fats@.take(i as int)),
            decreases self.fats@.len() - i,
        {
            assert(self.fats@.take(i + 1).drop_last() =~= self.fats@.take(i as int));
            add_all(out, &self.fats[i].findings);
            i += 1;
        }
        assert(self.fats@.take(i as int) =~= self.fats@);
        if let Some(d) = &self.root {
            d.collect(out);
        }
        if let Some(b) = &self.bitmap {
            add_all(out, &b.findings);
            if let Some(c) = &b.crosscheck {
                add_all(out, &c.findings);
            }
        }
        if let Some(u) = &self.upcase {
            add_all(out, &u.findings);
        }
        assert(out@ =~= old(out)@ + self.heap_findings());
    }

    /// Collect everything that is said about the volume.
    pub fn collect(&self) -> (out: Vec<Finding>)
        ensures
            out@ == self.all_findings(),
    {
        let mut out: Vec<Finding> = Vec::new();
        add_all(&mut out, &self.findings);
        self.main.collect(&mut out);
        self.diff.collect(&mut out);
        self.backup.collect(&mut out);
        add_one(&mut out, self.computed.finding);
        self.collect_heap(&mut out);
        add_one(&mut out, self.bitmap_length);
        add_one(&mut out, self.upcase_checksum);
        assert(out@ =~= self.all_findings());
        out
    }
}

// ------------------------------------------------------------------------ status

/// How serious the worst of a list of records is on its own.
pub open spec fn records_severity(v: Seq<Record>) -> Status
    decreases v.len(),
{
    if v.len() == 0 {
        Status::Clean
    } else {
        records_severity(v.drop_last()).worse(v.last()@.severity())
    }
}

fn records_status(v: &[Record]) -> (r: Status)
    ensures
        r == records_severity(v@),
{
    let mut r = Status::Clean;
    let mut i: usize = 0;
    while i < v.len()
        invariant
            i <= v@.len(),
            r == records_severity(v@.take(i as int)),
        decreases v@.len() - i,
    {
        assert(v@.take(i + 1).drop_last() =~= v@.take(i as int));
        r = r.merge(v[i].status());
        i += 1;
    }
    assert(v@.take(i as int) =~= v@);
    r
}

impl BootRegion {
    /// How serious what the region's records say on their own is.
    pub open spec fn own_severity(self) -> Status {
        (match self.boot_sector {
            Some(r) => r@.severity(),
            None => Status::Clean,
        }).worse(
            match self.oem {
                Some(o) => records_severity(o.records@),
                None => Status::Clean,
            },
        )
    }

    fn own_status(&self) -> (r: Status)
        ensures
            r == self.own_severity(),
    {
        let boot = match &self.boot_sector {
            Some(r) => r.status(),
            None => Status::Clean,
        };
        let oem = match &self.oem {
            Some(o) => records_status(&o.records),
            None => Status::Clean,
        };
        boot.merge(oem)
    }
}

impl Item {
    /// How serious what the row's records say on their own is.
    pub open spec fn own_severity(self) -> Status {
        match self.entry {
            Entry::End(r) => r@.severity(),
            Entry::ZeroedType(r) => r@.severity(),
            Entry::Single(s) => s.record@.severity(),
            Entry::File(s) => records_severity(s.fields@),
        }
    }

    fn own_status(&self) -> (r: Status)
        ensures
            r == self.own_severity(),
    {
        match &self.entry {
            Entry::End(r) => r.status(),
            Entry::ZeroedType(r) => r.status(),
            Entry::Single(s) => s.record.status(),
            Entry::File(s) => records_status(&s.fields),
        }
    }

    /// How serious the worst thing about the row is.
    pub fn status(&self) -> (r: Status)
        ensures
            r == finding::worst(self.all_findings()).worse(self.own_severity()),
    {
        let mut all: Vec<Finding> = Vec::new();
        self.collect(&mut all);
        assert(all@ =~= self.all_findings());
        worst_of(&all).merge(self.own_status())
    }
}

/// How serious what the records of a list of rows say on their own is.
pub open spec fn rows_severity(items: Seq<Item>) -> Status
    decreases items.len(),
{
    if items.len() == 0 {
        Status::Clean
    } else {
        rows_severity(items.drop_last()).worse(items.last().own_severity())
    }
}

fn rows_status(items: &[Item]) -> (r: Status)
    ensures
        r == rows_severity(items@),
{
    let mut r = Status::Clean;
    let mut i: usize = 0;
    while i < items.len()
        invariant
            i <= items@.len(),
            r == rows_severity(items@.take(i as int)),
        decreases items@.len() - i,
    {
        assert(items@.take(i + 1).drop_last() =~= items@.take(i as int));
        r = r.merge(items[i].own_status());
        i += 1;
    }
    assert(items@.take(i as int) =~= items@);
    r
}

impl ExfatVolume {
    /// How serious what the records of the volume say on their own is.
    pub open spec fn own_severity(self) -> Status {
        self.main.own_severity().worse(self.backup.own_severity()).worse(
            match self.root {
                Some(d) => rows_severity(d.items@),
                None => Status::Clean,
            },
        )
    }

    /// How serious the worst thing anywhere in the volume is: a finding, or a record
    /// that could not be read or has a field that fails its own check.
    pub fn deep_status(&self) -> (r: Status)
        ensures
            r == finding::worst(self.all_findings()).worse(self.own_severity()),
    {
        let all: Vec<Finding> = self.collect();
        let rows = match &self.root {
            Some(d) => rows_status(&d.items),
            None => Status::Clean,
        };
        worst_of(&all).merge(
            self.main.own_status().merge(self.backup.own_status()).merge(rows),
        )
    }
}

} // verus!
