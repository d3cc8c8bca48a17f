//! The boot sector, its backup, and the FSInfo sector.

use crate::common;
use crate::common::{div_ceil, mul_add, u16_or_zero, u32_or_zero, u64_or_zero, u8_or_zero};
use crate::desc::{read_struct, struct_of, ReadCtx, Record, RecordModel};
use crate::extent::Span;
use crate::fat::chain;
use crate::fat::chain::fat_entry;
use crate::fat::desc;
use crate::fat::finding;
use crate::fat::finding::{note, worst_of, Finding};
use crate::fat::geometry;
use crate::fat::geometry::Geom;
use crate::fat::kind::FatKind;
use crate::source;
use crate::source::{BlockSource, Device, ReadOutcome};
use crate::status::Status;
use crate::text;
use crate::text::Text;
use vstd::prelude::*;
use vstd::slice::slice_subrange;

verus! {

// ------------------------------------------------------------------- size checks

/// The volume's own idea of its size, against the device it is on.
pub open spec fn extent_findings(dev: Device, b: Seq<u8>, g: Geom) -> Seq<Finding> {
    if !g.sane {
        Seq::empty()
    } else if g.base + g.claimed() > u64::MAX {
        seq![Finding::VolumeEndOverflow]
    } else if g.base + g.claimed() > dev.len {
        let over = (g.base + g.claimed() - dev.len) as u64;
        let size = if g.bytes_per_sector == 0 { 1 } else { g.bytes_per_sector as int };
        let lost = common::ceil_div(over as int, size) as u64;
        if common::le16_or_zero(b, 0x13) != 0 {
            seq![Finding::VolumePast16 { total: g.total_sectors, over, lost }]
        } else {
            seq![Finding::VolumePast32 { total: g.total_sectors, over, lost }]
        }
    } else {
        Seq::empty()
    }
}

/// The media byte's one remaining job: matching the low byte of the first FAT entry.
pub open spec fn media_findings(dev: Device, b: Seq<u8>, g: Geom) -> Seq<Finding> {
    let media = common::byte_or_zero(b, 0x15) as u64;
    match chain::entry_of(dev, g, 0, 0) {
        Some(v) if g.sane => finding::when(
            v % 0x100 != media,
            Finding::MediaMismatch { media, first: (v % 0x100) as u64 },
        ),
        _ => Seq::empty(),
    }
}

fn note_extent<S: BlockSource>(src: &S, boot: &[u8], g: &Geom) -> (out: Vec<Finding>)
    ensures
        out@ == extent_findings(src.device(), boot@, *g),
{
    let mut out: Vec<Finding> = Vec::new();
    if !g.sane {
        return out;
    }
    match g.base.checked_add(g.volume_bytes()) {
        None => {
            out.push(Finding::VolumeEndOverflow);
        },
        Some(end) => {
            let len: u64 = src.len();
            if end > len {
                let over: u64 = end - len;
                let size: u64 = if g.bytes_per_sector == 0 { 1 } else { g.bytes_per_sector };
                let lost: u64 = div_ceil(over, size);
                if u16_or_zero(boot, 0x13) != 0 {
                    out.push(Finding::VolumePast16 { total: g.total_sectors, over, lost });
                } else {
                    out.push(Finding::VolumePast32 { total: g.total_sectors, over, lost });
                }
            }
        },
    }
    assert(out@ =~= extent_findings(src.device(), boot@, *g));
    out
}

fn note_media<S: BlockSource>(src: &S, boot: &[u8], g: &Geom) -> (out: Vec<Finding>)
    ensures
        out@ == media_findings(src.device(), boot@, *g),
{
    let mut out: Vec<Finding> = Vec::new();
    if g.sane {
        if let Some(v) = fat_entry(src, g, 0, 0) {
            let media: u64 = u8_or_zero(boot, 0x15) as u64;
            let first: u64 = (v % 0x100) as u64;
            note(&mut out, first != media, Finding::MediaMismatch { media, first });
        }
    }
    assert(out@ =~= media_findings(src.device(), boot@, *g));
    out
}

// -------------------------------------------------------------- the extended part

/// Where the extended part of the boot sector ends.
pub open spec fn ext_end(kind: FatKind) -> int {
    if kind == FatKind::Fat32 {
        0x5A
    } else {
        0x3E
    }
}

/// The eight bytes of the type string, packed into a number; zero where they were not
/// read.
pub open spec fn stored_type(b: Seq<u8>, kind: FatKind) -> u64 {
    if b.len() >= ext_end(kind) {
        common::le64(b, ext_end(kind) - 8)
    } else {
        0
    }
}

/// The type string starts with the name of the kind.
pub open spec fn says_kind(b: Seq<u8>, kind: FatKind) -> bool {
    let o = ext_end(kind) - 8;
    &&& b.len() >= ext_end(kind)
    &&& b[o] == 0x46 && b[o + 1] == 0x41 && b[o + 2] == 0x54
    &&& match kind {
        FatKind::Fat12 => b[o + 3] == 0x31 && b[o + 4] == 0x32,
        FatKind::Fat16 => b[o + 3] == 0x31 && b[o + 4] == 0x36,
        FatKind::Fat32 => b[o + 3] == 0x33 && b[o + 4] == 0x32,
    }
}

/// What is said of the extended part. The type string is a comment: a reader who
/// trusts it on a resized volume gets the wrong entry width and then the wrong data for
/// every file.
pub open spec fn ext_findings(b: Seq<u8>, g: Geom) -> Seq<Finding> {
    let flags = common::le16_or_zero(b, 0x28);
    let is_32 = g.kind == FatKind::Fat32;
    Seq::<Finding>::empty() + finding::when(
        g.sane && !says_kind(b, g.kind),
        Finding::FsTypeLies {
            stored: stored_type(b, g.kind),
            clusters: g.cluster_count,
            kind: g.kind,
        },
    ) + finding::when(
        is_32 && g.sane && !g.in_range(g.root_cluster as int),
        Finding::RootClusterOutside { cluster: g.root_cluster, last: g.last() },
    ) + finding::when(
        is_32 && (flags / 0x80) % 2 == 1,
        Finding::MirroringOff {
            live: (flags % 16) as u64,
            stale: if g.num_fats == 0 { 0 } else { (g.num_fats - 1) as u64 },
        },
    ) + finding::when(
        is_32 && common::le16_or_zero(b, 0x32) == 0,
        Finding::NoBackupSector,
    )
}

fn is_kind(b: &[u8], kind: FatKind) -> (r: bool)
    ensures
        r == says_kind(b@, kind),
{
    let o: usize = match kind {
        FatKind::Fat32 => 0x52,
        _ => 0x36,
    };
    if b.len() < o + 8 || b[o] != 0x46 || b[o + 1] != 0x41 || b[o + 2] != 0x54 {
        return false;
    }
    match kind {
        FatKind::Fat12 => b[o + 3] == 0x31 && b[o + 4] == 0x32,
        FatKind::Fat16 => b[o + 3] == 0x31 && b[o + 4] == 0x36,
        FatKind::Fat32 => b[o + 3] == 0x33 && b[o + 4] == 0x32,
    }
}

/// Cross-checks of the extended part that need the computed geometry.
pub fn annotate_ebpb(boot: &[u8], g: &Geom) -> (out: Vec<Finding>)
    ensures
        out@ == ext_findings(boot@, *g),
{
    let mut out: Vec<Finding> = Vec::new();
    let is_32: bool = g.kind == FatKind::Fat32;
    let type_at: usize = if is_32 { 0x52 } else { 0x36 };
    let stored: u64 = u64_or_zero(boot, type_at);
    note(
        &mut out,
        g.sane && !is_kind(boot, g.kind),
        Finding::FsTypeLies { stored, clusters: g.cluster_count, kind: g.kind },
    );
    note(
        &mut out,
        is_32 && g.sane && !g.cluster_in_range(g.root_cluster),
        Finding::RootClusterOutside { cluster: g.root_cluster, last: g.last_cluster() },
    );
    let flags: u16 = u16_or_zero(boot, 0x28);
    note(
        &mut out,
        is_32 && (flags / 0x80) % 2 == 1,
        Finding::MirroringOff {
            live: (flags % 16) as u64,
            stale: g.num_fats.saturating_sub(1),
        },
    );
    note(&mut out, is_32 && u16_or_zero(boot, 0x32) == 0, Finding::NoBackupSector);
    out
}

// ---------------------------------------------------------------- the boot sector

/// What is said of the two bytes that end the sector.
pub open spec fn signature_findings(b: Seq<u8>) -> Seq<Finding> {
    if b.len() < 512 {
        seq![Finding::SignatureMissing]
    } else {
        finding::when(
            b[0x1FE] != 0x55 || b[0x1FF] != 0xAA,
            Finding::SignatureWrong { low: b[0x1FE] as u64, high: b[0x1FF] as u64 },
        )
    }
}

/// One boot sector as it was read.
#[derive(Debug)]
pub struct BootSector {
    pub span: Span,
    pub bpb: Record,
    pub ebpb: Record,
    /// The boot code: opaque, but the strings inside it usually name the tool that
    /// wrote the volume.
    pub code: Span,
    /// What is said of its fields, the layout they describe included.
    pub findings: Vec<Finding>,
}

/// What a [`BootSector`] says.
pub struct BootSectorModel {
    pub span: Span,
    pub bpb: RecordModel,
    pub ebpb: RecordModel,
    pub code: Span,
    pub findings: Seq<Finding>,
}

impl View for BootSector {
    type V = BootSectorModel;

    open spec fn view(&self) -> BootSectorModel {
        BootSectorModel {
            span: self.span,
            bpb: self.bpb@,
            ebpb: self.ebpb@,
            code: self.code,
            findings: self.findings@,
        }
    }
}

/// The extended part of the boot sector read at `at`.
pub open spec fn ext_record(b: Seq<u8>, refused: bool, g: Geom, at: u64) -> RecordModel {
    let ext_at = common::saturated(at + 0x24);
    if g.kind == FatKind::Fat32 {
        struct_of(
            "FAT32 EBPB"@,
            desc::ebpb32_fields(),
            source::window(b, 0x24, 54),
            refused,
            ext_at,
            g.base,
        )
    } else {
        struct_of(
            "FAT12/16 EBPB"@,
            desc::ebpb16_fields(),
            source::window(b, 0x24, 26),
            refused,
            ext_at,
            g.base,
        )
    }
}

/// The boot sector at `at`, of which `b` was read, given the geometry it describes and
/// what deriving that said. The sector's offset and the volume's base are the same for
/// sector 0 and not for the backup: a backup measured from its own offset would look
/// like a volume that overruns the device.
pub open spec fn boot_of(
    dev: Device,
    b: Seq<u8>,
    refused: bool,
    g: Geom,
    derived: Seq<Finding>,
    at: u64,
) -> BootSectorModel {
    BootSectorModel {
        span: Span::of_bytes(at, 512),
        bpb: struct_of(
            "FAT BPB"@,
            desc::bpb_fields(),
            source::window(b, 0, 36),
            refused,
            at,
            g.base,
        ),
        ebpb: ext_record(b, refused, g, at),
        code: Span::of_bytes(
            common::saturated(at + ext_end(g.kind)),
            (0x1FE - ext_end(g.kind)) as u64,
        ),
        findings: derived + extent_findings(dev, b, g) + media_findings(dev, b, g) + ext_findings(
            b,
            g,
        ) + signature_findings(b),
    }
}

fn part<'a>(b: &'a [u8], off: usize, n: usize) -> (r: &'a [u8])
    requires
        off + n <= usize::MAX,
        n > 0,
    ensures
        r@ == source::window(b@, off as int, n as int),
{
    if off >= b.len() {
        let r: &[u8] = slice_subrange(b, 0, 0);
        assert(r@ =~= source::window(b@, off as int, n as int));
        return r;
    }
    let end: usize = if off + n <= b.len() { off + n } else { b.len() };
    slice_subrange(b, off, end)
}

/// Read the parts of a boot sector from its bytes.
pub fn boot_sector<S: BlockSource>(
    src: &S,
    boot: &[u8],
    outcome: ReadOutcome,
    g: &Geom,
    derived: Vec<Finding>,
    at: u64,
) -> (r: BootSector)
    ensures
        r@ == boot_of(
            src.device(),
            boot@,
            outcome == ReadOutcome::Unreadable,
            *g,
            derived@,
            at,
        ),
{
    let layout = desc::bpb();
    let bpb = read_struct(
        &layout,
        part(boot, 0, 36),
        outcome,
        ReadCtx { base: at, region_base: g.base },
    );
    let ext_ctx = ReadCtx { base: at.saturating_add(0x24), region_base: g.base };
    let ebpb = if g.kind == FatKind::Fat32 {
        let layout = desc::ebpb32();
        read_struct(&layout, part(boot, 0x24, 54), outcome, ext_ctx)
    } else {
        let layout = desc::ebpb16();
        read_struct(&layout, part(boot, 0x24, 26), outcome, ext_ctx)
    };
    let mut findings: Vec<Finding> = derived;
    let mut extent: Vec<Finding> = note_extent(src, boot, g);
    findings.append(&mut extent);
    let mut media: Vec<Finding> = note_media(src, boot, g);
    findings.append(&mut media);
    let mut ext: Vec<Finding> = annotate_ebpb(boot, g);
    findings.append(&mut ext);
    let ghost start = findings@;
    if boot.len() < 512 {
        findings.push(Finding::SignatureMissing);
    } else {
        let low: u8 = boot[0x1FE];
        let high: u8 = boot[0x1FF];
        note(
            &mut findings,
            low != 0x55 || high != 0xAA,
            Finding::SignatureWrong { low: low as u64, high: high as u64 },
        );
    }
    assert(findings@ =~= start + signature_findings(boot@));
    let end: u64 = if g.kind == FatKind::Fat32 { 0x5A } else { 0x3E };
    BootSector {
        span: Span::bytes(at, 512),
        bpb,
        ebpb,
        code: Span::bytes(at.saturating_add(end), 0x1FE - end),
        findings,
    }
}

impl BootSectorModel {
    /// How serious the worst thing in the sector is.
    pub open spec fn severity(self) -> Status {
        self.bpb.severity().worse(self.ebpb.severity()).worse(finding::worst(self.findings))
    }
}

impl BootSector {
    /// How serious the worst thing in the sector is.
    pub fn status(&self) -> (r: Status)
        ensures
            r == self@.severity(),
    {
        self.bpb.status().merge(self.ebpb.status()).merge(worst_of(&self.findings))
    }
}

// -------------------------------------------------------------------------- FSInfo

/// The FSInfo sector: hints, none of which need be right.
#[derive(Debug)]
pub struct FsInfo {
    pub sector: u64,
    /// The record, where its sector number is an offset at all.
    pub record: Option<Record>,
    pub findings: Vec<Finding>,
}

/// What an [`FsInfo`] says.
pub struct FsInfoModel {
    pub sector: u64,
    pub record: Option<RecordModel>,
    pub findings: Seq<Finding>,
}

impl View for FsInfo {
    type V = FsInfoModel;

    open spec fn view(&self) -> FsInfoModel {
        FsInfoModel {
            sector: self.sector,
            record: match self.record {
                Some(r) => Some(r@),
                None => None,
            },
            findings: self.findings@,
        }
    }
}

/// What is said of the hints.
pub open spec fn hint_findings(b: Seq<u8>, g: Geom) -> Seq<Finding> {
    let free = common::le32_or_zero(b, 0x1E8) as u64;
    let next = common::le32_or_zero(b, 0x1EC) as u64;
    finding::when(
        free != 0xFFFF_FFFF && free > g.cluster_count,
        Finding::FreeCountHigh { free, clusters: g.cluster_count },
    ) + finding::when(
        next != 0xFFFF_FFFF && !g.in_range(next as int) && next != 0,
        Finding::NextFreeOutside { cluster: next, last: g.last() },
    )
}

/// The FSInfo sector that the boot sector `b` names.
pub open spec fn fsinfo_of(dev: Device, g: Geom, b: Seq<u8>) -> FsInfoModel {
    let sector = common::le16_or_zero(b, 0x30) as u64;
    match common::checked(sector * g.bytes_per_sector + g.base) {
        None => FsInfoModel { sector, record: None, findings: seq![Finding::FsInfoOverflow] },
        Some(at) => {
            let r = dev.read(at, 512);
            FsInfoModel {
                sector,
                record: Some(
                    struct_of(
                        "FAT32 FSInfo"@,
                        desc::fsinfo_fields(),
                        r.data,
                        r.refused(),
                        at,
                        g.base,
                    ),
                ),
                findings: hint_findings(r.data, g),
            }
        },
    }
}

/// Read the FSInfo sector that the boot sector names.
pub fn read_fsinfo<S: BlockSource>(src: &S, g: &Geom, boot: &[u8]) -> (r: FsInfo)
    ensures
        r@ == fsinfo_of(src.device(), *g, boot@),
{
    let sector: u64 = u16_or_zero(boot, 0x30) as u64;
    match mul_add(sector, g.bytes_per_sector, g.base) {
        None => {
            let findings: Vec<Finding> = vec![Finding::FsInfoOverflow];
            assert(findings@ =~= seq![Finding::FsInfoOverflow]);
            FsInfo { sector, record: None, findings }
        },
        Some(at) => {
            let (bytes, outcome) = src.read_vec(at, 512);
            let layout = desc::fsinfo();
            let record = read_struct(
                &layout,
                &bytes,
                outcome,
                ReadCtx { base: at, region_base: g.base },
            );
            let free: u64 = u32_or_zero(&bytes, 0x1E8) as u64;
            let next: u64 = u32_or_zero(&bytes, 0x1EC) as u64;
            let mut findings: Vec<Finding> = Vec::new();
            note(
                &mut findings,
                free != 0xFFFF_FFFF && free > g.cluster_count,
                Finding::FreeCountHigh { free, clusters: g.cluster_count },
            );
            note(
                &mut findings,
                next != 0xFFFF_FFFF && !g.cluster_in_range(next) && next != 0,
                Finding::NextFreeOutside { cluster: next, last: g.last_cluster() },
            );
            assert(findings@ =~= hint_findings(bytes@, *g));
            FsInfo { sector, record: Some(record), findings }
        },
    }
}

impl FsInfoModel {
    /// How serious the worst thing about the sector is.
    pub open spec fn severity(self) -> Status {
        (match self.record {
            Some(r) => r.severity(),
            None => Status::Clean,
        }).worse(finding::worst(self.findings))
    }
}

impl FsInfo {
    /// How serious the worst thing about the sector is.
    pub fn status(&self) -> (r: Status)
        ensures
            r == self@.severity(),
    {
        let own = match &self.record {
            Some(r) => r.status(),
            None => Status::Clean,
        };
        own.merge(worst_of(&self.findings))
    }

    /// What the sector is called.
    pub fn label(&self) -> (r: String)
        ensures
            r@ == if self.record is Some {
                "FAT32 FSInfo @sector "@ + text::dec(self.sector as int)
            } else {
                "FAT32 FSInfo"@
            },
    {
        if self.record.is_some() {
            Text::of("FAT32 FSInfo @sector ").dec(self.sector).done()
        } else {
            Text::of("FAT32 FSInfo").done()
        }
    }
}

// -------------------------------------------------------------------------- backup

/// The backup boot sector, or why there is none.
#[derive(Debug)]
pub struct BackupBoot {
    pub sector: u64,
    /// The geometry that the backup itself describes, and its parts.
    pub copy: Option<(Geom, BootSector)>,
    pub finding: Finding,
}

/// What a [`BackupBoot`] says.
pub struct BackupBootModel {
    pub sector: u64,
    pub copy: Option<(Geom, BootSectorModel)>,
    pub finding: Finding,
}

impl View for BackupBoot {
    type V = BackupBootModel;

    open spec fn view(&self) -> BackupBootModel {
        BackupBootModel {
            sector: self.sector,
            copy: match self.copy {
                Some((g, b)) => Some((g, b@)),
                None => None,
            },
            finding: self.finding,
        }
    }
}

/// The two sectors agree through the extended part.
pub open spec fn same_head(a: Seq<u8>, b: Seq<u8>) -> bool {
    a.len() == b.len() && forall|i: int| 0 <= i < a.len() && i < 0x5A ==> #[trigger] a[i] == b[i]
}

/// The first of the offsets `n..` at which two sectors differ, or zero.
pub open spec fn first_difference(a: Seq<u8>, b: Seq<u8>, n: nat) -> u64
    decreases a.len() - n,
{
    if n >= a.len() || n >= b.len() {
        0
    } else if a[n as int] != b[n as int] {
        n as u64
    } else {
        first_difference(a, b, n + 1)
    }
}

/// The backup that the boot sector `b` names. Its own geometry is derived against the
/// volume's base, so that the two are directly comparable.
pub open spec fn backup_of(dev: Device, g: Geom, b: Seq<u8>) -> BackupBootModel {
    let sector = common::le16_or_zero(b, 0x32) as u64;
    if sector == 0 {
        BackupBootModel { sector, copy: None, finding: Finding::BackupNone }
    } else {
        match common::checked(sector * g.bytes_per_sector + g.base) {
            None => BackupBootModel { sector, copy: None, finding: Finding::BackupOverflow },
            Some(at) => {
                let r = dev.read(at, 512);
                let raw = geometry::bpb_of(r.data);
                let own = geometry::geom_of(raw, g.base).on_device(g.device_len);
                BackupBootModel {
                    sector,
                    copy: Some(
                        (
                            own,
                            boot_of(
                                dev,
                                r.data,
                                r.refused(),
                                own,
                                geometry::derive_findings(raw, g.base),
                                at,
                            ),
                        ),
                    ),
                    finding: if same_head(r.data, b) {
                        Finding::BackupSame
                    } else {
                        Finding::BackupDiffers { offset: first_difference(b, r.data, 0) }
                    },
                }
            },
        }
    }
}

fn is_same_head(a: &[u8], b: &[u8]) -> (r: bool)
    ensures
        r == same_head(a@, b@),
{
    if a.len() != b.len() {
        return false;
    }
    let mut i: usize = 0;
    while i < a.len() && i < 0x5A
        invariant
            i <= a@.len(),
            a@.len() == b@.len(),
            forall|j: int| 0 <= j < i ==> #[trigger] a@[j] == b@[j],
        decreases a@.len() - i,
    {
        if a[i] != b[i] {
            assert(a@[i as int] != b@[i as int]);
            return false;
        }
        i += 1;
    }
    true
}

fn find_difference(a: &[u8], b: &[u8]) -> (r: u64)
    ensures
        r == first_difference(a@, b@, 0),
{
    let mut i: usize = 0;
    while i < a.len() && i < b.len()
        invariant
            i <= a@.len(),
            first_difference(a@, b@, 0) == first_difference(a@, b@, i as nat),
        decreases a@.len() - i,
    {
        if a[i] != b[i] {
            return i as u64;
        }
        i += 1;
    }
    0
}

/// Read the backup that the boot sector names, and compare the two.
pub fn read_backup<S: BlockSource>(src: &S, g: &Geom, boot: &[u8]) -> (r: BackupBoot)
    ensures
        r@ == backup_of(src.device(), *g, boot@),
{
    let sector: u64 = u16_or_zero(boot, 0x32) as u64;
    if sector == 0 {
        return BackupBoot { sector, copy: None, finding: Finding::BackupNone };
    }
    match mul_add(sector, g.bytes_per_sector, g.base) {
        None => BackupBoot { sector, copy: None, finding: Finding::BackupOverflow },
        Some(at) => {
            let (bytes, outcome) = src.read_vec(at, 512);
            let (own, derived): (Geom, Vec<Finding>) = Geom::derive(&bytes, g.base);
            let own = own.with_device_len(g.device_len);
            let copy = boot_sector(src, &bytes, outcome, &own, derived, at);
            let finding = if is_same_head(&bytes, boot) {
                Finding::BackupSame
            } else {
                Finding::BackupDiffers { offset: find_difference(boot, &bytes) }
            };
            BackupBoot { sector, copy: Some((own, copy)), finding }
        },
    }
}

impl BackupBootModel {
    /// How serious the worst thing about the backup is.
    pub open spec fn severity(self) -> Status {
        (match self.copy {
            Some((_, b)) => b.severity(),
            None => Status::Clean,
        }).worse(self.finding.severity())
    }
}

impl BackupBoot {
    /// How serious the worst thing about the backup is.
    pub fn status(&self) -> (r: Status)
        ensures
            r == self@.severity(),
    {
        let own = match &self.copy {
            Some((_, b)) => b.status(),
            None => Status::Clean,
        };
        own.merge(self.finding.status())
    }

    /// What the sector is called.
    pub fn label(&self) -> (r: String)
        ensures
            r@ == if self.copy is Some {
                "backup boot sector @sector "@ + text::dec(self.sector as int)
            } else {
                "backup boot sector"@
            },
    {
        if self.copy.is_some() {
            Text::of("backup boot sector @sector ").dec(self.sector).done()
        } else {
            Text::of("backup boot sector").done()
        }
    }
}

} // verus!
