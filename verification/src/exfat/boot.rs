//! The two boot regions: twelve sectors each, the second a copy of the first.

use crate::checksum;
use crate::checksum::ChecksumAlgo;
use crate::common;
use crate::common::{saturating_mul, u32le};
use crate::desc::{read_desc_at, record_of, FieldDesc, ReadCtx, Record, RecordModel};
use crate::exfat::desc;
use crate::exfat::entry::{is_zero_from, zero_from};
use crate::exfat::fat_table::word;
use crate::exfat::finding;
use crate::exfat::finding::{note, Finding};
use crate::exfat::geometry;
use crate::exfat::geometry::{annotate_boot_sector, Geometry};
use crate::source::{BlockSource, Device, ReadOutcome};
use crate::text;
use crate::text::Text;
use vstd::prelude::*;
use vstd::slice::slice_subrange;

verus! {

// ------------------------------------------------------------- boot checksum

/// `VolumeFlags` and `PercentInUse`, which a driver rewrites while mounted: the
/// bytes that the boot checksum skips.
pub open spec fn skipped_bytes() -> Seq<(u64, u64)> {
    seq![(106u64, 2u64), (112u64, 1u64)]
}

/// The checksum over sectors 0 to 10 of a boot region.
pub open spec fn region_sum(covered: Seq<u8>) -> u64 {
    ChecksumAlgo::ExfatBootRegion.value(covered, skipped_bytes())
}

/// Compute the checksum over sectors 0 to 10 of a boot region.
pub fn region_checksum(covered: &[u8]) -> (r: u64)
    ensures
        r == region_sum(covered@),
        r <= u32::MAX,
{
    let skip: [(u64, u64); 2] = [(106, 2), (112, 1)];
    assert(skip@ =~= skipped_bytes());
    ChecksumAlgo::ExfatBootRegion.compute(covered, &skip)
}

/// Whatever a driver writes into the skipped bytes, the checksum stays the same.
pub proof fn lemma_checksum_skips_driver_bytes(a: Seq<u8>, b: Seq<u8>)
    requires
        a.len() == b.len(),
        forall|i: int|
            0 <= i < a.len() && i != 106 && i != 107 && i != 112 ==> #[trigger] a[i] == b[i],
    ensures
        region_sum(a) == region_sum(b),
{
    lemma_rotate_add_skips(a, b, skipped_bytes(), 0x8000_0000);
}

/// The checksum notices every single byte that changes, wherever in the region it
/// lies, except the skipped ones.
pub proof fn lemma_checksum_notices_every_other_byte(a: Seq<u8>, b: Seq<u8>, i: int)
    requires
        a.len() == b.len(),
        0 <= i < a.len(),
        a[i] != b[i],
        forall|j: int| 0 <= j < a.len() && j != i ==> #[trigger] a[j] == b[j],
    ensures
        region_sum(a) == region_sum(b) <==> i == 106 || i == 107 || i == 112,
{
    let skip = skipped_bytes();
    checksum::lemma_rotate_add_notices_a_byte(a, b, skip, 0x8000_0000, i);
    checksum::lemma_rotate_add_bound(a, skip, 0x8000_0000);
    checksum::lemma_rotate_add_bound(b, skip, 0x8000_0000);
    if i == 106 || i == 107 {
        assert(skip[0].0 <= i < skip[0].0 + skip[0].1);
    } else if i == 112 {
        assert(skip[1].0 <= i < skip[1].0 + skip[1].1);
    }
}

proof fn lemma_rotate_add_skips(a: Seq<u8>, b: Seq<u8>, ranges: Seq<(u64, u64)>, top: int)
    requires
        a.len() == b.len(),
        ranges == skipped_bytes(),
        forall|i: int|
            0 <= i < a.len() && i != 106 && i != 107 && i != 112 ==> #[trigger] a[i] == b[i],
    ensures
        checksum::rotate_add(a, ranges, top) == checksum::rotate_add(b, ranges, top),
    decreases a.len(),
{
    if a.len() > 0 {
        let n = a.len() - 1;
        assert forall|i: int|
            0 <= i < a.drop_last().len() && i != 106 && i != 107 && i
                != 112 implies #[trigger] a.drop_last()[i] == b.drop_last()[i] by {
            assert(a[i] == b[i]);
        }
        lemma_rotate_add_skips(a.drop_last(), b.drop_last(), ranges, top);
        if n == 106 || n == 107 {
            assert(ranges[0].0 <= n < ranges[0].0 + ranges[0].1);
        } else if n == 112 {
            assert(ranges[1].0 <= n < ranges[1].0 + ranges[1].1);
        } else {
            assert(a[n] == b[n]);
        }
    }
}

/// Copy `i` of the repeated checksum differs from the first.
pub open spec fn copy_differs(sector: Seq<u8>, i: int) -> bool {
    word(sector, 4 * i) != word(sector, 0)
}

/// Which of copies 1 to `n - 1` differ from the first, up to eight of them.
pub open spec fn differing_copies(sector: Seq<u8>, n: nat) -> Seq<u64>
    decreases n,
{
    if n <= 1 {
        Seq::empty()
    } else {
        let before = differing_copies(sector, (n - 1) as nat);
        if copy_differs(sector, n - 1) && before.len() < 8 {
            before.push((n - 1) as u64)
        } else {
            before
        }
    }
}

/// How many of copies 1 to `n - 1` differ from the first.
pub open spec fn differing_total(sector: Seq<u8>, n: nat) -> nat
    decreases n,
{
    if n <= 1 {
        0
    } else {
        differing_total(sector, (n - 1) as nat) + if copy_differs(sector, n - 1) {
            1nat
        } else {
            0nat
        }
    }
}

/// The boot checksum sector of a region.
#[derive(Debug)]
pub struct BootChecksum {
    /// `None` when the offset does not fit in 64 bits.
    pub at: Option<u64>,
    pub unreadable: bool,
    pub stored: Option<u64>,
    pub computed: u64,
    pub matches: bool,
    /// How often the value is repeated in the sector.
    pub copies: u64,
    /// Up to eight copies that differ from the first.
    pub differing: Vec<u64>,
    pub differing_total: u64,
    pub findings: Vec<Finding>,
}

/// What a [`BootChecksum`] says.
pub struct BootChecksumModel {
    pub at: Option<u64>,
    pub unreadable: bool,
    pub stored: Option<u64>,
    pub computed: u64,
    pub matches: bool,
    pub copies: u64,
    pub differing: Seq<u64>,
    pub differing_total: u64,
    pub findings: Seq<Finding>,
}

impl View for BootChecksum {
    type V = BootChecksumModel;

    open spec fn view(&self) -> BootChecksumModel {
        BootChecksumModel {
            at: self.at,
            unreadable: self.unreadable,
            stored: self.stored,
            computed: self.computed,
            matches: self.matches,
            copies: self.copies,
            differing: self.differing@,
            differing_total: self.differing_total,
            findings: self.findings@,
        }
    }
}

/// A checksum sector of which nothing is known.
pub open spec fn no_checksum(at: Option<u64>, f: Finding) -> BootChecksumModel {
    BootChecksumModel {
        at,
        unreadable: at is Some,
        stored: None,
        computed: 0,
        matches: false,
        copies: 0,
        differing: Seq::empty(),
        differing_total: 0,
        findings: seq![f],
    }
}

/// The stored checksum of a sector.
pub open spec fn stored_in(sector: Seq<u8>) -> Option<u64> {
    match word(sector, 0) {
        Some(v) => Some(v as u64),
        None => None,
    }
}

/// What the checksum sector says of the region it covers.
pub open spec fn checked_sector(
    at: u64,
    covered: Seq<u8>,
    complete: bool,
    covered_len: u64,
    sector: Seq<u8>,
) -> BootChecksumModel {
    let stored = stored_in(sector);
    let computed = region_sum(covered);
    let copies = sector.len() / 4;
    let total = differing_total(sector, copies) as u64;
    BootChecksumModel {
        at: Some(at),
        unreadable: false,
        stored,
        computed,
        matches: stored == Some(computed),
        copies: copies as u64,
        differing: differing_copies(sector, copies),
        differing_total: total,
        findings: Seq::<Finding>::empty() + finding::when(
            stored != Some(computed),
            Finding::BootChecksum {
                stored: match stored {
                    Some(v) => v,
                    None => 0,
                },
                computed,
            },
        ) + finding::when(
            !complete,
            Finding::BootRegionShort { have: covered.len() as u64, want: covered_len },
        ) + finding::when(
            total == 0,
            Finding::RepetitionsAgree { copies: copies as u64 },
        ) + finding::when(
            total > 0,
            Finding::RepetitionsDiffer { total, copies: copies as u64 },
        ),
    }
}

/// The boot checksum of the region that starts at `first_sector`.
pub open spec fn boot_checksum_of(dev: Device, g: Geometry, first_sector: u64) -> BootChecksumModel {
    match g.sector_at(first_sector + desc::BOOT_CHECKSUM_SECTOR) {
        None => no_checksum(None, Finding::ChecksumOverflow),
        Some(at) => {
            let want = common::saturated(desc::BOOT_CHECKSUM_SECTOR * g.bytes_per_sector);
            let from = match g.sector_at(first_sector as int) {
                Some(v) => v,
                None => g.base,
            };
            let covered = dev.read(from, want);
            let sector = dev.read(at, g.bytes_per_sector);
            if covered.refused() || sector.refused() {
                no_checksum(Some(at), Finding::ChecksumUnreadable)
            } else {
                checked_sector(
                    at,
                    covered.data,
                    covered.outcome == ReadOutcome::Full,
                    want,
                    sector.data,
                )
            }
        },
    }
}

fn unknown_checksum(at: Option<u64>, f: Finding) -> (r: BootChecksum)
    ensures
        r@ == no_checksum(at, f),
{
    let mut findings: Vec<Finding> = Vec::new();
    findings.push(f);
    assert(findings@ =~= seq![f]);
    BootChecksum {
        at,
        unreadable: at.is_some(),
        stored: None,
        computed: 0,
        matches: false,
        copies: 0,
        differing: Vec::new(),
        differing_total: 0,
        findings,
    }
}

fn check_sector(
    at: u64,
    covered: &[u8],
    complete: bool,
    covered_len: u64,
    sector: &[u8],
) -> (r: BootChecksum)
    ensures
        r@ == checked_sector(at, covered@, complete, covered_len, sector@),
{
    let computed: u64 = region_checksum(covered);
    let first = u32le(sector, 0);
    let stored = match first {
        Some(v) => Some(v as u64),
        None => None,
    };
    let (matches, shown): (bool, u64) = match stored {
        Some(v) => (v == computed, v),
        None => (false, 0),
    };
    let len: usize = sector.len();
    let copies: usize = len / 4;
    let mut differing: Vec<u64> = Vec::new();
    let mut total: u64 = 0;
    let mut i: usize = 1;
    while i < copies
        invariant
            1 <= i,
            len == sector@.len(),
            copies == len / 4,
            copies > 0 ==> i <= copies,
            copies == 0 ==> i == 1,
            first == word(sector@, 0),
            differing@ =~= differing_copies(sector@, i as nat),
            total == differing_total(sector@, i as nat),
            total <= i,
        decreases copies - i,
    {
        let same: bool = match (u32le(sector, 4 * i), first) {
            (Some(a), Some(b)) => a == b,
            (None, None) => true,
            _ => false,
        };
        assert(same == !copy_differs(sector@, i as int));
        if !same {
            total += 1;
            if differing.len() < 8 {
                differing.push(i as u64);
            }
        }
        i += 1;
    }
    assert(differing@ =~= differing_copies(sector@, copies as nat));
    assert(total == differing_total(sector@, copies as nat));
    let mut findings: Vec<Finding> = Vec::new();
    note(&mut findings, !matches, Finding::BootChecksum { stored: shown, computed });
    note(
        &mut findings,
        !complete,
        Finding::BootRegionShort { have: covered.len() as u64, want: covered_len },
    );
    note(&mut findings, total == 0, Finding::RepetitionsAgree { copies: copies as u64 });
    note(&mut findings, total > 0, Finding::RepetitionsDiffer { total, copies: copies as u64 });
    BootChecksum {
        at: Some(at),
        unreadable: false,
        stored,
        computed,
        matches,
        copies: copies as u64,
        differing,
        differing_total: total,
        findings,
    }
}

/// Check the boot checksum of the region that starts at `first_sector`.
///
/// The value is repeated for the whole sector, so a drive that wrote only part of
/// it leaves copies that disagree, which is worth more than the checksum itself.
pub fn boot_checksum<S: BlockSource>(src: &S, geo: &Geometry, first_sector: u64) -> (r: BootChecksum)
    requires
        first_sector <= u32::MAX,
    ensures
        r@ == boot_checksum_of(src.device(), *geo, first_sector),
{
    let at: u64 = match geo.sector_byte(first_sector + desc::BOOT_CHECKSUM_SECTOR) {
        Some(at) => at,
        None => {
            return unknown_checksum(None, Finding::ChecksumOverflow);
        },
    };
    let want: u64 = saturating_mul(desc::BOOT_CHECKSUM_SECTOR, geo.bytes_per_sector);
    let from: u64 = match geo.sector_byte(first_sector) {
        Some(v) => v,
        None => geo.base,
    };
    let (covered, covered_outcome) = src.read_vec(from, want);
    let (sector, sector_outcome) = src.read_vec(at, geo.bytes_per_sector);
    if covered_outcome == ReadOutcome::Unreadable || sector_outcome == ReadOutcome::Unreadable {
        return unknown_checksum(Some(at), Finding::ChecksumUnreadable);
    }
    check_sector(at, &covered, covered_outcome == ReadOutcome::Full, want, &sector)
}

impl BootChecksum {
    /// Which copies differ, in words.
    pub fn differing_message(&self) -> (r: String)
        ensures
            r@ == text::dec(self.differing_total as int) + " of "@ + text::dec(self.copies as int)
                + " copies differ from the first, at index(es) "@ + text::list(self.differing@),
    {
        let t = Text::of("").dec(self.differing_total).lit(" of ").dec(self.copies).lit(
            " copies differ from the first, at index(es) ",
        ).list(&self.differing);
        proof {
            reveal_strlit("");
        }
        assert(t@ =~= text::dec(self.differing_total as int) + " of "@ + text::dec(
            self.copies as int,
        ) + " copies differ from the first, at index(es) "@ + text::list(self.differing@));
        t.done()
    }
}

// ---------------------------------------------------- the sectors in between

/// One of the eight extended boot sectors.
#[derive(Clone, Copy, Debug, PartialEq, Eq, Structural)]
pub struct ExtSector {
    pub index: u64,
    pub at: u64,
    /// The last four bytes of the sector, where they could be read.
    pub signature: Option<u32>,
    pub finding: Option<Finding>,
}

/// Extended boot sector `index`, at `at`. Only the trailing signature is defined.
pub open spec fn ext_sector_of(dev: Device, g: Geometry, at: u64, index: u64) -> ExtSector {
    let r = dev.read(at, g.bytes_per_sector);
    let off: u64 = if g.bytes_per_sector >= 4 { (g.bytes_per_sector - 4) as u64 } else { 0 };
    let signature = if r.refused() { None } else { word(r.data, off as int) };
    ExtSector {
        index,
        at,
        signature,
        finding: if r.refused() {
            Some(Finding::RecordUnreadable { at })
        } else {
            match signature {
                None => Some(Finding::ExtShort),
                Some(v) => if v == 0xAA55_0000u32 {
                    None
                } else {
                    Some(Finding::ExtSignature { offset: off, value: v })
                },
            }
        },
    }
}

/// Read one extended boot sector.
pub fn ext_boot_sector<S: BlockSource>(src: &S, geo: &Geometry, at: u64, index: u64) -> (r:
    ExtSector)
    ensures
        r == ext_sector_of(src.device(), *geo, at, index),
{
    let (raw, outcome) = src.read_vec(at, geo.bytes_per_sector);
    if outcome == ReadOutcome::Unreadable {
        return ExtSector {
            index,
            at,
            signature: None,
            finding: Some(Finding::RecordUnreadable { at }),
        };
    }
    let off: u64 = geo.bytes_per_sector.saturating_sub(4);
    let fits: bool = raw.len() >= 4 && off <= (raw.len() - 4) as u64;
    let signature = if fits { u32le(&raw, off as usize) } else { None };
    let finding = match signature {
        None => Some(Finding::ExtShort),
        Some(v) => if v == 0xAA55_0000 {
            None
        } else {
            Some(Finding::ExtSignature { offset: off, value: v })
        },
    };
    ExtSector { index, at, signature, finding }
}

/// What an OEM parameter slot holds.
#[derive(Clone, Copy, Debug, PartialEq, Eq, Structural)]
pub enum OemKind {
    Null,
    /// All 0xFF, which is how a formatter leaves a slot it does not use.
    Unset,
    Vendor,
}

/// Every byte is 0xFF.
pub open spec fn all_ff(s: Seq<u8>) -> bool {
    forall|i: int| 0 <= i < s.len() ==> #[trigger] s[i] == 0xFF
}

/// What the bytes of a slot make it.
pub open spec fn oem_kind(raw: Seq<u8>) -> OemKind {
    if zero_from(raw, 0) {
        OemKind::Null
    } else if all_ff(raw) {
        OemKind::Unset
    } else {
        OemKind::Vendor
    }
}

/// How many OEM slots lie inside the sector at `at`.
pub open spec fn oem_slots(g: Geometry, at: u64, n: u64) -> u64
    decreases n,
{
    if n == 0 {
        0
    } else {
        let before = oem_slots(g, at, (n - 1) as u64);
        if before == n - 1 && at + 48 * (n - 1) <= u64::MAX && common::saturated(
            at + 48 * (n - 1) + 48,
        ) <= common::saturated(at + g.bytes_per_sector) {
            n
        } else {
            before
        }
    }
}

/// The kinds of the first `n` slots of the OEM sector at `at`.
pub open spec fn oem_kinds(dev: Device, at: u64, n: nat) -> Seq<OemKind> {
    Seq::new(n, |i: int| oem_kind(dev.read((at + 48 * i) as u64, 48).data))
}

/// The fields of the first `n` slots of the OEM sector at `at`.
pub open spec fn oem_records(dev: Device, base: u64, at: u64, n: nat) -> Seq<RecordModel> {
    Seq::new(
        n,
        |i: int|
            record_of(
                dev,
                "exFAT OEM parameter"@,
                48,
                desc::oem_param_fields(),
                (at + 48 * i) as u64,
                base,
            ),
    )
}

/// The models of a list of records.
pub open spec fn record_models(v: Seq<Record>) -> Seq<RecordModel> {
    Seq::new(v.len(), |i: int| v[i]@)
}

/// Every one of the ten slots is of this kind.
pub open spec fn all_slots(kinds: Seq<OemKind>, k: OemKind) -> bool {
    &&& kinds.len() == desc::OEM_PARAM_COUNT
    &&& forall|i: int| 0 <= i < kinds.len() ==> #[trigger] kinds[i] == k
}

fn is_all_ff(s: &[u8]) -> (r: bool)
    ensures
        r == all_ff(s@),
{
    let mut i: usize = 0;
    while i < s.len()
        invariant
            i <= s@.len(),
            forall|j: int| 0 <= j < i ==> #[trigger] s@[j] == 0xFF,
        decreases s@.len() - i,
    {
        if s[i] != 0xFF {
            return false;
        }
        i += 1;
    }
    true
}

fn are_all(kinds: &[OemKind], k: OemKind) -> (r: bool)
    ensures
        r == all_slots(kinds@, k),
{
    if kinds.len() as u64 != desc::OEM_PARAM_COUNT {
        return false;
    }
    let mut i: usize = 0;
    while i < kinds.len()
        invariant
            i <= kinds@.len(),
            kinds@.len() == desc::OEM_PARAM_COUNT,
            forall|j: int| 0 <= j < i ==> #[trigger] kinds@[j] == k,
        decreases kinds@.len() - i,
    {
        if kinds[i] != k {
            return false;
        }
        i += 1;
    }
    true
}

/// The OEM parameter sector.
#[derive(Debug)]
pub struct OemParams {
    pub at: u64,
    pub kinds: Vec<OemKind>,
    /// The fields of each slot, in the same order.
    pub records: Vec<Record>,
    pub findings: Vec<Finding>,
}

/// What the slots of an OEM parameter sector say.
pub open spec fn oem_findings(kinds: Seq<OemKind>) -> Seq<Finding> {
    Seq::<Finding>::empty() + finding::when(all_slots(kinds, OemKind::Unset), Finding::OemUnset)
        + finding::when(all_slots(kinds, OemKind::Null), Finding::OemNull)
}

proof fn lemma_oem_slots_stay(g: Geometry, at: u64, i: u64, n: u64)
    requires
        oem_slots(g, at, i) < i <= n,
    ensures
        oem_slots(g, at, n) == oem_slots(g, at, i),
    decreases n,
{
    if i < n {
        lemma_oem_slots_stay(g, at, i, (n - 1) as u64);
    }
}

/// Read the OEM parameter sector at `at`: ten vendor records.
pub fn oem_params<S: BlockSource>(src: &S, geo: &Geometry, at: u64) -> (r: OemParams)
    ensures
        r.at == at,
        r.kinds@ == oem_kinds(
            src.device(),
            at,
            oem_slots(*geo, at, desc::OEM_PARAM_COUNT) as nat,
        ),
        record_models(r.records@) == oem_records(
            src.device(),
            geo.base,
            at,
            oem_slots(*geo, at, desc::OEM_PARAM_COUNT) as nat,
        ),
        r.findings@ == oem_findings(r.kinds@),
{
    let layout = desc::oem_param();
    let mut records: Vec<Record> = Vec::new();
    let mut kinds: Vec<OemKind> = Vec::new();
    let end: u64 = at.saturating_add(geo.bytes_per_sector);
    let mut i: u64 = 0;
    while i < desc::OEM_PARAM_COUNT
        invariant_except_break
            oem_slots(*geo, at, i) == i,
        invariant
            i <= 10,
            end == common::saturated(at + geo.bytes_per_sector),
            kinds@ =~= oem_kinds(src.device(), at, i as nat),
            layout.name@ == "exFAT OEM parameter"@,
            layout.size == 48,
            layout.fields@ == desc::oem_param_fields(),
            record_models(records@) =~= oem_records(src.device(), geo.base, at, i as nat),
        ensures
            i == oem_slots(*geo, at, 10),
        decreases 10 - i,
    {
        let slot: u64 = match at.checked_add(48 * i) {
            Some(v) => v,
            None => {
                proof {
                    lemma_oem_slots_stay(*geo, at, (i + 1) as u64, 10);
                }
                break;
            },
        };
        if slot.saturating_add(48) > end {
            proof {
                lemma_oem_slots_stay(*geo, at, (i + 1) as u64, 10);
            }
            break;
        }
        let (raw, _outcome) = src.read_vec(slot, 48);
        let kind = if is_zero_from(&raw, 0) {
            OemKind::Null
        } else if is_all_ff(&raw) {
            OemKind::Unset
        } else {
            OemKind::Vendor
        };
        kinds.push(kind);
        let ghost before = record_models(records@);
        let record = read_desc_at(
            src,
            &layout,
            slot,
            ReadCtx { base: slot, region_base: geo.base },
        );
        records.push(record);
        assert(record_models(records@) =~= before.push(record@));
        i += 1;
    }
    let mut findings: Vec<Finding> = Vec::new();
    note(&mut findings, are_all(&kinds, OemKind::Unset), Finding::OemUnset);
    note(&mut findings, are_all(&kinds, OemKind::Null), Finding::OemNull);
    OemParams { at, kinds, records, findings }
}

/// What the reserved sector at `at` says.
pub open spec fn reserved_finding(dev: Device, g: Geometry, at: u64) -> Option<Finding> {
    let r = dev.read(at, g.bytes_per_sector);
    if r.refused() {
        Some(Finding::RecordUnreadable { at })
    } else if !zero_from(r.data, 0) {
        Some(Finding::ReservedSectorDirty)
    } else {
        None
    }
}

/// Check the reserved sector at `at`.
pub fn reserved_sector<S: BlockSource>(src: &S, geo: &Geometry, at: u64) -> (r: Option<Finding>)
    ensures
        r == reserved_finding(src.device(), *geo, at),
{
    let (raw, outcome) = src.read_vec(at, geo.bytes_per_sector);
    if outcome == ReadOutcome::Unreadable {
        Some(Finding::RecordUnreadable { at })
    } else if !is_zero_from(&raw, 0) {
        Some(Finding::ReservedSectorDirty)
    } else {
        None
    }
}

// -------------------------------------------------------------- a whole region

/// One boot region.
#[derive(Debug)]
pub struct BootRegion {
    pub first_sector: u64,
    /// `None` when the offset does not fit in 64 bits; nothing else is there then.
    pub at: Option<u64>,
    pub len: u64,
    pub boot_sector: Option<Record>,
    pub boot_findings: Vec<Finding>,
    pub ext_sectors: Vec<ExtSector>,
    pub oem: Option<OemParams>,
    pub reserved: Option<Finding>,
    pub checksum: Option<BootChecksum>,
    pub findings: Vec<Finding>,
}

/// The extended boot sectors of a region: as many of the eight as have an offset.
pub open spec fn ext_sectors_of(dev: Device, g: Geometry, first_sector: u64, n: nat) -> Seq<ExtSector>
    decreases n,
{
    if n == 0 {
        Seq::empty()
    } else {
        let before = ext_sectors_of(dev, g, first_sector, (n - 1) as nat);
        match g.sector_at(first_sector + n) {
            Some(at) if before.len() == n - 1 => before.push(
                ext_sector_of(dev, g, at, (n - 1) as u64),
            ),
            _ => before,
        }
    }
}

proof fn lemma_ext_sectors_stay(dev: Device, g: Geometry, first_sector: u64, i: nat, n: nat)
    requires
        ext_sectors_of(dev, g, first_sector, i).len() < i <= n,
    ensures
        ext_sectors_of(dev, g, first_sector, n) == ext_sectors_of(dev, g, first_sector, i),
    decreases n,
{
    if i < n {
        lemma_ext_sectors_stay(dev, g, first_sector, i, (n - 1) as nat);
    }
}

fn ext_boot_sectors<S: BlockSource>(src: &S, geo: &Geometry, first_sector: u64) -> (r: Vec<ExtSector>)
    requires
        first_sector <= u32::MAX,
    ensures
        r@ == ext_sectors_of(src.device(), *geo, first_sector, 8),
{
    let mut out: Vec<ExtSector> = Vec::new();
    let mut i: u64 = 0;
    while i < 8
        invariant_except_break
            out@.len() == i,
        invariant
            i <= 8,
            first_sector <= u32::MAX,
            out@ == ext_sectors_of(src.device(), *geo, first_sector, i as nat),
        ensures
            out@ == ext_sectors_of(src.device(), *geo, first_sector, 8),
        decreases 8 - i,
    {
        let at: u64 = match geo.sector_byte(first_sector + desc::EXT_BOOT_FIRST_SECTOR + i) {
            Some(at) => at,
            None => {
                proof {
                    lemma_ext_sectors_stay(src.device(), *geo, first_sector, (i + 1) as nat, 8);
                }
                break;
            },
        };
        out.push(ext_boot_sector(src, geo, at, i));
        i += 1;
    }
    out
}

impl BootRegion {
    /// The region that starts at `first_sector`, with what was already found about it.
    pub open spec fn describes(
        self,
        dev: Device,
        g: Geometry,
        first_sector: u64,
        extra: Seq<Finding>,
    ) -> bool {
        &&& self.first_sector == first_sector
        &&& self.at == g.sector_at(first_sector as int)
        &&& self.at is None ==> {
            &&& self.boot_sector is None
            &&& self.boot_findings@ == Seq::<Finding>::empty()
            &&& self.ext_sectors@ == Seq::<ExtSector>::empty()
            &&& self.oem is None
            &&& self.reserved is None
            &&& self.checksum is None
            &&& self.findings@ == seq![Finding::BootRegionOverflow]
        }
        &&& self.at matches Some(at) ==> {
            &&& self.len == common::saturated(desc::BOOT_REGION_SECTORS * g.bytes_per_sector)
            &&& self.findings@ == extra
            &&& self.boot_findings@ == geometry::boot_sector_findings(g, dev.len)
            &&& self.boot_sector matches Some(rec) && rec@ == record_of(
                dev,
                "exFAT boot sector"@,
                512,
                desc::main_boot_sector_fields(),
                at,
                g.base,
            )
            &&& self.ext_sectors@ == ext_sectors_of(dev, g, first_sector, 8)
            &&& match g.sector_at(first_sector + desc::OEM_PARAM_SECTOR) {
                Some(oem_at) => self.oem matches Some(oem) && oem.at == oem_at && oem.kinds@
                    == oem_kinds(
                    dev,
                    oem_at,
                    oem_slots(g, oem_at, desc::OEM_PARAM_COUNT) as nat,
                ) && record_models(oem.records@) == oem_records(
                    dev,
                    g.base,
                    oem_at,
                    oem_slots(g, oem_at, desc::OEM_PARAM_COUNT) as nat,
                ) && oem.findings@ == oem_findings(oem.kinds@),
                None => self.oem is None,
            }
            &&& self.reserved == match g.sector_at(first_sector + desc::RESERVED_SECTOR) {
                Some(reserved_at) => reserved_finding(dev, g, reserved_at),
                None => None,
            }
            &&& self.checksum matches Some(c) && c@ == boot_checksum_of(dev, g, first_sector)
        }
    }

    /// The row label.
    pub open spec fn named(self) -> Seq<char> {
        (if self.first_sector == 0 {
            "main boot region (sectors "@
        } else {
            "backup boot region (sectors "@
        }) + text::dec(self.first_sector as int) + ".."@ + text::dec(self.first_sector + 11)
            + ")"@
    }

    /// The row label.
    pub fn label(&self) -> (r: String)
        requires
            self.first_sector <= u32::MAX,
        ensures
            r@ == self.named(),
    {
        Text::of(
            if self.first_sector == 0 {
                "main boot region (sectors "
            } else {
                "backup boot region (sectors "
            },
        ).dec(self.first_sector).lit("..").dec(self.first_sector + 11).lit(")").done()
    }
}

fn no_region(first_sector: u64) -> (r: BootRegion)
    ensures
        r.first_sector == first_sector,
        r.at is None,
        r.boot_sector is None,
        r.boot_findings@.len() == 0,
        r.ext_sectors@.len() == 0,
        r.oem is None,
        r.reserved is None,
        r.checksum is None,
        r.findings@ == seq![Finding::BootRegionOverflow],
{
    let mut findings: Vec<Finding> = Vec::new();
    findings.push(Finding::BootRegionOverflow);
    assert(findings@ =~= seq![Finding::BootRegionOverflow]);
    BootRegion {
        first_sector,
        at: None,
        len: 0,
        boot_sector: None,
        boot_findings: Vec::new(),
        ext_sectors: Vec::new(),
        oem: None,
        reserved: None,
        checksum: None,
        findings,
    }
}

/// Read one of the two boot regions. `extra` is what deriving the geometry found.
pub fn boot_region<S: BlockSource>(
    src: &S,
    geo: &Geometry,
    first_sector: u64,
    extra: Vec<Finding>,
) -> (r: BootRegion)
    requires
        geo.well_formed(),
        first_sector <= u32::MAX,
    ensures
        r.describes(src.device(), *geo, first_sector, extra@),
{
    let at: u64 = match geo.sector_byte(first_sector) {
        Some(at) => at,
        None => {
            let r = no_region(first_sector);
            assert(r.boot_findings@ =~= Seq::<Finding>::empty());
            assert(r.ext_sectors@ =~= Seq::<ExtSector>::empty());
            return r;
        },
    };
    let layout = desc::main_boot_sector();
    let record = read_desc_at(
        src,
        &layout,
        at,
        ReadCtx { base: at, region_base: geo.base },
    );
    let boot_findings: Vec<Finding> = annotate_boot_sector(geo, src.len());
    let ext_sectors: Vec<ExtSector> = ext_boot_sectors(src, geo, first_sector);
    let oem = match geo.sector_byte(first_sector + desc::OEM_PARAM_SECTOR) {
        Some(oem_at) => Some(oem_params(src, geo, oem_at)),
        None => None,
    };
    let reserved = match geo.sector_byte(first_sector + desc::RESERVED_SECTOR) {
        Some(reserved_at) => reserved_sector(src, geo, reserved_at),
        None => None,
    };
    let checksum = boot_checksum(src, geo, first_sector);
    BootRegion {
        first_sector,
        at: Some(at),
        len: saturating_mul(desc::BOOT_REGION_SECTORS, geo.bytes_per_sector),
        boot_sector: Some(record),
        boot_findings,
        ext_sectors,
        oem,
        reserved,
        checksum: Some(checksum),
        findings: extra,
    }
}

// -------------------------------------------------------------- main vs backup

/// A field of the boot sector in which the two regions differ.
#[derive(Debug)]
pub struct FieldDiff {
    pub name: &'static str,
    pub main: Vec<u8>,
    pub backup: Vec<u8>,
    /// The boot checksum skips the field, so a driver may have rewritten it.
    pub skipped: bool,
}

/// What a [`FieldDiff`] says.
pub struct FieldDiffModel {
    pub name: Seq<char>,
    pub main: Seq<u8>,
    pub backup: Seq<u8>,
    pub skipped: bool,
}

impl View for FieldDiff {
    type V = FieldDiffModel;

    open spec fn view(&self) -> FieldDiffModel {
        FieldDiffModel {
            name: self.name@,
            main: self.main@,
            backup: self.backup@,
            skipped: self.skipped,
        }
    }
}

/// Byte `i` of the boot sector lies in the field.
pub open spec fn in_field(f: FieldDesc, i: int) -> bool {
    f.off <= i < f.off + f.width
}

/// The field as it differs between the two regions.
pub open spec fn field_diff(f: FieldDesc, a: Seq<u8>, b: Seq<u8>) -> FieldDiffModel {
    FieldDiffModel {
        name: f.name@,
        main: a.subrange(f.off as int, f.off + f.width),
        backup: b.subrange(f.off as int, f.off + f.width),
        skipped: in_field(f, 106) || in_field(f, 107) || in_field(f, 112),
    }
}

/// Both regions hold the field, and it differs.
pub open spec fn field_differs(f: FieldDesc, a: Seq<u8>, b: Seq<u8>) -> bool {
    &&& f.off + f.width <= a.len()
    &&& f.off + f.width <= b.len()
    &&& a.subrange(f.off as int, f.off + f.width) != b.subrange(f.off as int, f.off + f.width)
}

/// The fields that differ, in order.
pub open spec fn field_diffs(fields: Seq<FieldDesc>, a: Seq<u8>, b: Seq<u8>) -> Seq<FieldDiffModel>
    decreases fields.len(),
{
    if fields.len() == 0 {
        Seq::empty()
    } else {
        let before = field_diffs(fields.drop_last(), a, b);
        if field_differs(fields.last(), a, b) {
            before.push(field_diff(fields.last(), a, b))
        } else {
            before
        }
    }
}

/// Sector `s` of the two regions differs.
pub open spec fn sector_differs(a: Seq<u8>, b: Seq<u8>, bps: u64, s: int) -> bool {
    &&& (s + 1) * bps <= a.len()
    &&& (s + 1) * bps <= b.len()
    &&& a.subrange(s * bps, (s + 1) * bps) != b.subrange(s * bps, (s + 1) * bps)
}

/// Which of the first `n` sectors differ.
pub open spec fn sector_diffs(a: Seq<u8>, b: Seq<u8>, bps: u64, n: nat) -> Seq<u64>
    decreases n,
{
    if n == 0 {
        Seq::empty()
    } else {
        let before = sector_diffs(a, b, bps, (n - 1) as nat);
        if sector_differs(a, b, bps, n - 1) {
            before.push((n - 1) as u64)
        } else {
            before
        }
    }
}

/// How the two boot regions compare.
#[derive(Debug)]
pub struct BackupDiff {
    pub verdict: Finding,
    pub fields: Vec<FieldDiff>,
    /// Region-relative sectors that differ.
    pub sectors: Vec<u64>,
}

/// What a [`BackupDiff`] says.
pub struct BackupDiffModel {
    pub verdict: Finding,
    pub fields: Seq<FieldDiffModel>,
    pub sectors: Seq<u64>,
}

/// The models of a list of field differences.
pub open spec fn diff_models(fields: Seq<FieldDiff>) -> Seq<FieldDiffModel> {
    Seq::new(fields.len(), |i: int| fields[i]@)
}

impl View for BackupDiff {
    type V = BackupDiffModel;

    open spec fn view(&self) -> BackupDiffModel {
        BackupDiffModel {
            verdict: self.verdict,
            fields: diff_models(self.fields@),
            sectors: self.sectors@,
        }
    }
}

/// A comparison that ends in a verdict and nothing else.
pub open spec fn plain_verdict(f: Finding) -> BackupDiffModel {
    BackupDiffModel { verdict: f, fields: Seq::empty(), sectors: Seq::empty() }
}

/// How the two boot regions compare.
pub open spec fn backup_diff_of(dev: Device, g: Geometry) -> BackupDiffModel {
    let len = common::saturated(desc::BOOT_REGION_SECTORS * g.bytes_per_sector);
    match (g.sector_at(0), g.sector_at(desc::BACKUP_BOOT_SECTOR as int)) {
        (Some(main_at), Some(backup_at)) => {
            let a = dev.read(main_at, len);
            let b = dev.read(backup_at, len);
            if a.refused() || b.refused() {
                plain_verdict(Finding::RegionUnreadable)
            } else if a.data.len() != b.data.len() {
                plain_verdict(
                    Finding::RegionLengths {
                        main: a.data.len() as u64,
                        backup: b.data.len() as u64,
                    },
                )
            } else if a.data == b.data {
                plain_verdict(Finding::RegionsIdentical)
            } else {
                BackupDiffModel {
                    verdict: Finding::RegionsDiffer,
                    fields: field_diffs(desc::main_boot_sector_fields(), a.data, b.data),
                    sectors: sector_diffs(a.data, b.data, g.bytes_per_sector, 12),
                }
            }
        },
        _ => plain_verdict(Finding::BackupOverflow),
    }
}

fn same_range(a: &[u8], b: &[u8], from: usize, to: usize) -> (r: bool)
    requires
        from <= to,
        to <= a@.len(),
        to <= b@.len(),
    ensures
        r == (a@.subrange(from as int, to as int) == b@.subrange(from as int, to as int)),
{
    let mut i: usize = from;
    while i < to
        invariant
            from <= i <= to,
            to <= a@.len(),
            to <= b@.len(),
            forall|j: int| from <= j < i ==> #[trigger] a@[j] == b@[j],
        decreases to - i,
    {
        if a[i] != b[i] {
            assert(a@.subrange(from as int, to as int)[i - from] != b@.subrange(
                from as int,
                to as int,
            )[i - from]);
            return false;
        }
        i += 1;
    }
    assert(a@.subrange(from as int, to as int) =~= b@.subrange(from as int, to as int));
    true
}

fn bytes_of(a: &[u8], from: usize, to: usize) -> (r: Vec<u8>)
    requires
        from <= to <= a@.len(),
    ensures
        r@ == a@.subrange(from as int, to as int),
{
    vstd::slice::slice_to_vec(slice_subrange(a, from, to))
}

fn diff_fields(fields: &[FieldDesc], a: &[u8], b: &[u8]) -> (r: Vec<FieldDiff>)
    ensures
        diff_models(r@) == field_diffs(fields@, a@, b@),
{
    let mut out: Vec<FieldDiff> = Vec::new();
    let mut i: usize = 0;
    assert(diff_models(out@) =~= Seq::empty());
    while i < fields.len()
        invariant
            i <= fields@.len(),
            diff_models(out@) =~= field_diffs(fields@.take(i as int), a@, b@),
        decreases fields@.len() - i,
    {
        assert(fields@.take(i + 1).drop_last() =~= fields@.take(i as int));
        let f: FieldDesc = fields[i];
        let room: u64 = if a.len() < b.len() { a.len() as u64 } else { b.len() as u64 };
        if f.width <= room && f.off <= room - f.width {
            let from: usize = f.off as usize;
            let to: usize = (f.off + f.width) as usize;
            if !same_range(a, b, from, to) {
                let end: u64 = f.off + f.width;
                let skipped: bool = f.off <= 106 && 106 < end || f.off <= 107 && 107 < end || f.off
                    <= 112 && 112 < end;
                let ghost before = out@;
                out.push(
                    FieldDiff {
                        name: f.name,
                        main: bytes_of(a, from, to),
                        backup: bytes_of(b, from, to),
                        skipped,
                    },
                );
                assert(diff_models(out@) =~= diff_models(before).push(field_diff(f, a@, b@)));
            }
        }
        i += 1;
    }
    assert(fields@.take(i as int) =~= fields@);
    out
}

fn diff_sectors(a: &[u8], b: &[u8], bps: u64) -> (r: Vec<u64>)
    requires
        bps <= u32::MAX,
    ensures
        r@ == sector_diffs(a@, b@, bps, 12),
        forall|i: int| 0 <= i < r@.len() ==> #[trigger] r@[i] < 12,
{
    let mut out: Vec<u64> = Vec::new();
    let mut s: u64 = 0;
    while s < 12
        invariant
            s <= 12,
            bps <= u32::MAX,
            out@ =~= sector_diffs(a@, b@, bps, s as nat),
            forall|i: int| 0 <= i < out@.len() ==> #[trigger] out@[i] < 12,
        decreases 12 - s,
    {
        assert(s * bps <= 12 * 0xFFFF_FFFF && (s + 1) * bps <= 12 * 0xFFFF_FFFF && s * bps <= (s
            + 1) * bps) by (nonlinear_arith)
            requires
                s < 12,
                0 <= bps <= 0xFFFF_FFFF,
        ;
        let from: u64 = s * bps;
        let to: u64 = (s + 1) * bps;
        if to <= a.len() as u64 && to <= b.len() as u64 {
            if !same_range(a, b, from as usize, to as usize) {
                out.push(s);
            }
        }
        s += 1;
    }
    out
}

fn verdict_only(f: Finding) -> (r: BackupDiff)
    ensures
        r@ == plain_verdict(f),
{
    let r = BackupDiff { verdict: f, fields: Vec::new(), sectors: Vec::new() };
    assert(r@.fields =~= Seq::empty());
    r
}

/// Compare the two boot regions and report what actually differs.
///
/// A difference is not automatically a fault: a driver that updates `VolumeFlags` on
/// mount touches only the main region. Saying *which* bytes differ is the difference
/// between a useful report and an alarm.
pub fn backup_diff<S: BlockSource>(src: &S, geo: &Geometry) -> (r: BackupDiff)
    requires
        geo.well_formed(),
    ensures
        r@ == backup_diff_of(src.device(), *geo),
{
    let len: u64 = saturating_mul(desc::BOOT_REGION_SECTORS, geo.bytes_per_sector);
    let (main_at, backup_at): (u64, u64) = match (
        geo.sector_byte(0),
        geo.sector_byte(desc::BACKUP_BOOT_SECTOR),
    ) {
        (Some(m), Some(b)) => (m, b),
        _ => {
            return verdict_only(Finding::BackupOverflow);
        },
    };
    let (a, a_outcome) = src.read_vec(main_at, len);
    let (b, b_outcome) = src.read_vec(backup_at, len);
    if a_outcome == ReadOutcome::Unreadable || b_outcome == ReadOutcome::Unreadable {
        return verdict_only(Finding::RegionUnreadable);
    }
    if a.len() != b.len() {
        return verdict_only(
            Finding::RegionLengths { main: a.len() as u64, backup: b.len() as u64 },
        );
    }
    assert(a@.subrange(0, a@.len() as int) =~= a@);
    assert(b@.subrange(0, b@.len() as int) =~= b@);
    if same_range(&a, &b, 0, a.len()) {
        return verdict_only(Finding::RegionsIdentical);
    }
    let layout = desc::main_boot_sector();
    let fields: Vec<FieldDiff> = diff_fields(&layout.fields, &a, &b);
    let sectors: Vec<u64> = diff_sectors(&a, &b, geo.bytes_per_sector);
    BackupDiff { verdict: Finding::RegionsDiffer, fields, sectors }
}

/// Every number of the list moved up by `by`.
pub open spec fn shifted(numbers: Seq<u64>, by: u64) -> Seq<u64> {
    Seq::new(numbers.len(), |i: int| (numbers[i] + by) as u64)
}

impl BackupDiff {
    /// Which sectors differ, in words.
    pub fn sectors_message(&self) -> (r: String)
        requires
            forall|i: int| 0 <= i < self.sectors@.len() ==> #[trigger] self.sectors@[i] < 12,
        ensures
            r@ == "the two boot regions differ at region-relative sector(s) "@ + text::list(
                self.sectors@,
            ) + " — that is main sector(s) "@ + text::list(self.sectors@)
                + " against backup sector(s) "@ + text::list(shifted(self.sectors@, 12)),
    {
        let mut backup: Vec<u64> = Vec::new();
        let mut i: usize = 0;
        while i < self.sectors.len()
            invariant
                i <= self.sectors@.len(),
                forall|j: int| 0 <= j < self.sectors@.len() ==> #[trigger] self.sectors@[j] < 12,
                backup@ =~= shifted(self.sectors@, 12).take(i as int),
            decreases self.sectors@.len() - i,
        {
            backup.push(self.sectors[i] + 12);
            i += 1;
        }
        assert(backup@ =~= shifted(self.sectors@, 12));
        Text::of("the two boot regions differ at region-relative sector(s) ").list(
            &self.sectors,
        ).lit(" — that is main sector(s) ").list(&self.sectors).lit(
            " against backup sector(s) ",
        ).list(&backup).done()
    }
}

impl FieldDiff {
    /// The difference, in words.
    pub fn message(&self) -> (r: String)
        ensures
            r@ == "boot sector field "@ + self.name@ + " differs: main "@ + text::hex_bytes(self.main@)
                + ", backup "@ + text::hex_bytes(self.backup@),
    {
        let t = Text::of("boot sector field ").lit(self.name).lit(" differs: main ");
        t.hex_bytes(&self.main).lit(", backup ").hex_bytes(&self.backup).done()
    }

    /// The finding that the difference is.
    pub open spec fn as_finding(self) -> Finding {
        if self.skipped {
            Finding::BootFieldDrifts
        } else {
            Finding::BootFieldDiffers
        }
    }

    /// The finding that the difference is: normal drift, or damage.
    pub fn finding(&self) -> (r: Finding)
        ensures
            r == self.as_finding(),
    {
        if self.skipped {
            Finding::BootFieldDrifts
        } else {
            Finding::BootFieldDiffers
        }
    }
}

} // verus!
