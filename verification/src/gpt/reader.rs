//! Recognising a GPT, and reading both copies of it.
//!
//! Sector numbers inside a GPT are absolute on the device, so they are resolved as
//! such wherever the table was opened. The base is only where the primary header is
//! looked for: one sector after it.

use crate::common;
use crate::common::{lba_to_byte, read_exact_opt};
use crate::extent::Span;
use crate::gpt::array;
use crate::gpt::array::{array_row, plan_entries, ArrayPlan, ArrayPlanModel, ArrayRow};
use crate::gpt::compare;
use crate::gpt::compare::{compare_copies, Comparison, ComparisonModel};
use crate::gpt::desc;
use crate::gpt::finding;
use crate::gpt::finding::{worst_of, Finding};
use crate::gpt::header;
use crate::gpt::header::{is_signed, read_block_size, read_header, Header, HeaderFacts, HeaderModel};
use crate::source::{BlockSource, Device};
use crate::status::Status;
use vstd::prelude::*;

verus! {

// -------------------------------------------------------------------- the probe

/// Recognises GPT partition tables.
#[derive(Clone, Copy, Debug)]
pub struct GptProbe;

/// The sectors of a device.
pub open spec fn sectors_of(dev: Device) -> u64 {
    dev.len / header::block_size(dev)
}

/// The last sector of a device.
pub open spec fn last_lba_of(dev: Device) -> u64 {
    if sectors_of(dev) == 0 {
        0
    } else {
        (sectors_of(dev) - 1) as u64
    }
}

/// What the fields of a signed header at sector `lba` are worth beyond the signature.
pub open spec fn field_score(f: HeaderFacts, lba: u64, last_lba: u64, block: u64) -> int {
    (if f.revision == desc::REVISION_1_0 {
        8int
    } else {
        0
    }) + (if desc::MIN_HEADER_SIZE <= f.header_size <= block {
        7int
    } else {
        0
    }) + (if f.my_lba == lba {
        10int
    } else {
        0
    }) + (if f.alternate_lba != 0 && f.alternate_lba != f.my_lba && f.alternate_lba <= last_lba {
        10int
    } else {
        0
    }) + (if 128 <= f.entry_size <= array::MAX_ENTRY_SIZE && f.entry_size % 8 == 0 {
        8int
    } else {
        0
    }) + (if 0 < f.num_entries <= array::MAX_ENTRIES {
        7int
    } else {
        0
    })
}

/// How sure the block one sector past `at` makes one that this is a GPT.
pub open spec fn score_of(dev: Device, at: u64) -> int {
    let block = header::block_size(dev);
    match common::checked(at + block) {
        None => 0,
        Some(hdr_at) => {
            let r = dev.read(hdr_at, block);
            if r.refused() || r.data.len() < desc::MIN_HEADER_SIZE || !header::signed(r.data) {
                0
            } else {
                50 + field_score(
                    header::facts_of(r.data),
                    hdr_at / block,
                    last_lba_of(dev),
                    block,
                )
            }
        },
    }
}

fn last_lba<S: BlockSource>(src: &S) -> (r: u64)
    ensures
        r == last_lba_of(src.device()),
{
    let block: u64 = read_block_size(src) as u64;
    (src.len() / block).saturating_sub(1)
}

impl GptProbe {
    /// The identifier of the format.
    pub fn id(&self) -> (r: &'static str)
        ensures
            r@ == "gpt"@,
    {
        "gpt"
    }

    pub fn name(&self) -> (r: &'static str)
        ensures
            r@ == "GPT partition table"@,
    {
        "GPT partition table"
    }

    /// Score the block one sector past `at`.
    ///
    /// The signature is eight bytes that nothing else carries, but it is worth only
    /// half: it says a GPT was written here once, not that this one describes this
    /// disk. The rest comes from fields that have to agree with the device. The
    /// header's checksum contributes nothing: a GPT with a broken checksum is still
    /// unambiguously a GPT.
    pub fn probe<S: BlockSource>(&self, src: &S, at: u64) -> (r: u8)
        ensures
            r == score_of(src.device(), at),
    {
        let block: u64 = read_block_size(src) as u64;
        let hdr_at: u64 = match at.checked_add(block) {
            Some(v) => v,
            None => {
                return 0;
            },
        };
        let hdr: Vec<u8> = match read_exact_opt(src, hdr_at, block) {
            Some(v) => v,
            None => {
                return 0;
            },
        };
        if hdr.len() < 92 || !is_signed(&hdr) {
            return 0;
        }
        let last: u64 = last_lba(src);
        let f = HeaderFacts::from_bytes(&hdr);
        let mut score: u8 = 50;
        if f.revision == desc::REVISION_1_0 as u64 {
            score += 8;
        }
        if f.header_size >= 92 && f.header_size <= block {
            score += 7;
        }
        if f.my_lba == hdr_at / block {
            score += 10;
        }
        if f.alternate_lba != 0 && f.alternate_lba != f.my_lba && f.alternate_lba <= last {
            score += 10;
        }
        if f.entry_size >= 128 && f.entry_size <= array::MAX_ENTRY_SIZE && f.entry_size % 8 == 0 {
            score += 8;
        }
        if f.num_entries > 0 && f.num_entries <= array::MAX_ENTRIES {
            score += 7;
        }
        score
    }

    /// Open the table at `at`, whatever it scored.
    pub fn open<'a, S: BlockSource>(&self, src: &'a S, at: u64) -> (r: GptReader<'a, S>)
        ensures
            r.source() == src,
            r.start() == at,
    {
        GptReader::new(src, at)
    }
}

/// A score is at most 100, and zero without the signature.
pub proof fn lemma_scores_need_a_signature(dev: Device, at: u64)
    ensures
        0 <= score_of(dev, at) <= 100,
        score_of(dev, at) > 0 ==> score_of(dev, at) >= 50 && header::signed(
            dev.read((at + header::block_size(dev)) as u64, header::block_size(dev)).data,
        ),
{
}

/// The header's checksum is no part of the score: two devices whose header blocks
/// differ in nothing but those four bytes score the same.
pub proof fn lemma_score_ignores_the_checksum(a: Device, b: Device, at: u64)
    requires
        a.len == b.len,
        a.sector_size == b.sector_size,
        at + header::block_size(a) <= u64::MAX,
        ({
            let block = header::block_size(a);
            let x = a.read((at + block) as u64, block);
            let y = b.read((at + block) as u64, block);
            &&& x.outcome == y.outcome
            &&& x.data.len() == y.data.len()
            &&& forall|i: int|
                0 <= i < x.data.len() && !(16 <= i < 20) ==> x.data[i] == y.data[i]
        }),
    ensures
        score_of(a, at) == score_of(b, at),
{
    let block = header::block_size(a);
    let x = a.read((at + block) as u64, block).data;
    let y = b.read((at + block) as u64, block).data;
    if x.len() >= 92 {
        assert(x.subrange(0, 8) =~= y.subrange(0, 8));
        assert(header::facts_of(x) == header::facts_of(y)) by {
            assert(header::zero_at(x, 0x38, 16) == header::zero_at(y, 0x38, 16)) by {
                assert(forall|i: int| 0x38 <= i < 0x48 ==> #[trigger] x[i] == y[i]);
            }
        }
    }
}

// ----------------------------------------------------------------- the first LBA

/// An entry of an MBR is blank.
pub open spec fn mbr_blank(s: Seq<u8>, i: int) -> bool {
    let o = 0x1BE + 16 * i;
    s[o + 4] == 0 && common::le32(s, o + 8) == 0 && common::le32(s, o + 12) == 0
}

/// How many of the first `n` MBR entries are protective, or are not.
pub open spec fn mbr_count(s: Seq<u8>, protective: bool, n: nat) -> nat
    decreases n,
{
    if n == 0 {
        0
    } else {
        mbr_count(s, protective, (n - 1) as nat) + if !mbr_blank(s, n - 1) && (s[0x1BE + 16 * (n
            - 1) + 4] == 0xEE) == protective {
            1nat
        } else {
            0nat
        }
    }
}

/// The start and length of the last protective entry among the first `n`.
pub open spec fn mbr_extent(s: Seq<u8>, n: nat) -> (u64, u64)
    decreases n,
{
    if n == 0 {
        (0, 0)
    } else if !mbr_blank(s, n - 1) && s[0x1BE + 16 * (n - 1) + 4] == 0xEE {
        let o = 0x1BE + 16 * (n - 1);
        (common::le32(s, o + 8) as u64, common::le32(s, o + 12) as u64)
    } else {
        mbr_extent(s, (n - 1) as nat)
    }
}

/// Whether the sector at `at` protects the GPT, contradicts it, or is not there. One
/// protective entry from sector 1 over the whole disk is what it should hold.
pub open spec fn mbr_finding(dev: Device, at: u64) -> Finding {
    let r = dev.read(at, 512);
    let s = r.data;
    let protective = mbr_count(s, true, 4);
    let other = mbr_count(s, false, 4);
    let (start, sectors) = mbr_extent(s, 4);
    let expected = last_lba_of(dev);
    if r.refused() {
        Finding::MbrUnreadable
    } else if s.len() < 512 {
        Finding::MbrShort
    } else if s[0x1FE] != 0x55 || s[0x1FF] != 0xAA {
        Finding::MbrUnsigned
    } else if protective >= 1 && other >= 1 {
        Finding::HybridMbr { entries: other as u64 }
    } else if protective == 0 {
        Finding::NotProtected
    } else if protective > 1 {
        Finding::ManyProtective { entries: protective as u64 }
    } else if start == 1 && (sectors == expected || sectors == 0xFFFF_FFFF) {
        Finding::ProtectiveFine { sectors }
    } else {
        Finding::ProtectiveOdd { start, sectors, expected }
    }
}

/// Judge the sector in front of the GPT.
pub fn protective_mbr_diag<S: BlockSource>(src: &S, at: u64) -> (r: Finding)
    ensures
        r == mbr_finding(src.device(), at),
{
    let s: Vec<u8> = match read_exact_opt(src, at, 512) {
        Some(v) => v,
        None => {
            return Finding::MbrUnreadable;
        },
    };
    if s.len() < 512 {
        return Finding::MbrShort;
    }
    if s[0x1FE] != 0x55 || s[0x1FF] != 0xAA {
        return Finding::MbrUnsigned;
    }
    let mut protective: u64 = 0;
    let mut other: u64 = 0;
    let mut start: u64 = 0;
    let mut sectors: u64 = 0;
    let mut i: usize = 0;
    while i < 4
        invariant
            i <= 4,
            s@.len() >= 512,
            protective == mbr_count(s@, true, i as nat),
            other == mbr_count(s@, false, i as nat),
            protective <= i,
            other <= i,
            (start, sectors) == mbr_extent(s@, i as nat),
        decreases 4 - i,
    {
        let o: usize = 0x1BE + 16 * i;
        let kind: u8 = s[o + 4];
        let first: u64 = common::u32_or_zero(&s, o + 8) as u64;
        let count: u64 = common::u32_or_zero(&s, o + 12) as u64;
        if !(kind == 0 && first == 0 && count == 0) {
            if kind == 0xEE {
                protective += 1;
                start = first;
                sectors = count;
            } else {
                other += 1;
            }
        }
        i += 1;
    }
    if protective >= 1 && other >= 1 {
        return Finding::HybridMbr { entries: other };
    }
    if protective == 0 {
        return Finding::NotProtected;
    }
    if protective > 1 {
        return Finding::ManyProtective { entries: protective };
    }
    let expected: u64 = last_lba(src);
    if start == 1 && (sectors == expected || sectors == 0xFFFF_FFFF) {
        Finding::ProtectiveFine { sectors }
    } else {
        Finding::ProtectiveOdd { start, sectors, expected }
    }
}

// -------------------------------------------------------------------- the copies

/// The sector carries the signature.
pub open spec fn signed_at(dev: Device, lba: u64) -> bool {
    match common::checked(lba * header::block_size(dev)) {
        Some(at) => !dev.read(at, 8).refused() && header::signed(dev.read(at, 8).data),
        None => false,
    }
}

/// Where the backup header is: the last sector, unless that carries no signature and
/// the sector that the primary names does.
pub open spec fn backup_lba_of(dev: Device, pf: HeaderFacts) -> u64 {
    let last = last_lba_of(dev);
    let alt = pf.alternate_lba;
    if !signed_at(dev, last) && pf.present && alt != 0 && alt != pf.my_lba && alt <= last
        && signed_at(dev, alt) {
        alt
    } else {
        last
    }
}

/// Which copies exist. A missing primary with an intact backup is a recoverable disk.
pub open spec fn presence_finding(
    pf: HeaderFacts,
    bf: HeaderFacts,
    primary: u64,
    backup: u64,
) -> Option<Finding> {
    if pf.present && bf.present {
        None
    } else if pf.present {
        Some(Finding::BackupMissing { backup })
    } else if bf.present {
        Some(Finding::PrimaryMissing { primary, backup })
    } else {
        Some(Finding::NeitherSigned { primary, backup })
    }
}

/// Say which copies exist.
pub fn presence_diag(pf: &HeaderFacts, bf: &HeaderFacts, primary: u64, backup: u64) -> (r: Option<
    Finding,
>)
    ensures
        r == presence_finding(*pf, *bf, primary, backup),
{
    if pf.present && bf.present {
        None
    } else if pf.present {
        Some(Finding::BackupMissing { backup })
    } else if bf.present {
        Some(Finding::PrimaryMissing { primary, backup })
    } else {
        Some(Finding::NeitherSigned { primary, backup })
    }
}

// --------------------------------------------------------------------- the table

/// A whole GPT: two headers, two arrays, and how the copies compare.
#[derive(Debug)]
pub struct Gpt {
    /// The areas the table actually occupies, not the device it describes.
    pub spans: Vec<Span>,
    pub primary: Header,
    pub primary_plan: ArrayPlan,
    pub entries: ArrayRow,
    pub backup_entries: ArrayRow,
    pub backup_plan: ArrayPlan,
    pub backup: Header,
    pub compare: Comparison,
    pub findings: Vec<Finding>,
}

/// What a [`Gpt`] says.
pub struct GptModel {
    pub spans: Seq<Span>,
    pub primary: HeaderModel,
    pub primary_plan: ArrayPlanModel,
    pub entries: ArrayRow,
    pub backup_entries: ArrayRow,
    pub backup_plan: ArrayPlanModel,
    pub backup: HeaderModel,
    pub compare: ComparisonModel,
    pub findings: Seq<Finding>,
}

impl View for Gpt {
    type V = GptModel;

    open spec fn view(&self) -> GptModel {
        GptModel {
            spans: self.spans@,
            primary: self.primary@,
            primary_plan: self.primary_plan@,
            entries: self.entries,
            backup_entries: self.backup_entries,
            backup_plan: self.backup_plan@,
            backup: self.backup@,
            compare: self.compare@,
            findings: self.findings@,
        }
    }
}

/// The area of a planned array, empty where it has no place.
pub open spec fn plan_span(p: ArrayPlanModel) -> Span {
    match p.at {
        Some(at) => Span::of_bytes(at, common::saturated(p.count * p.entry_size)),
        None => Span::of_bytes(0, 0),
    }
}

/// The spans of a list that cover anything.
pub open spec fn covering(spans: Seq<Span>) -> Seq<Span>
    decreases spans.len(),
{
    if spans.len() == 0 {
        Seq::empty()
    } else if spans.last().len > 0 {
        covering(spans.drop_last()).push(spans.last())
    } else {
        covering(spans.drop_last())
    }
}

/// The finding of an option, as a list.
pub open spec fn listed(f: Option<Finding>) -> Seq<Finding> {
    match f {
        Some(f) => seq![f],
        None => Seq::empty(),
    }
}

/// Where the primary header of the table at `base` is looked for.
pub open spec fn primary_at(dev: Device, base: u64) -> u64 {
    common::saturated(base + header::block_size(dev))
}

/// The primary header of the table at `base`.
pub open spec fn primary_of(dev: Device, base: u64) -> HeaderModel {
    let at = primary_at(dev, base);
    header::header_of(dev, at, at / header::block_size(dev), last_lba_of(dev), true)
}

/// The sector of the backup header of the table at `base`.
pub open spec fn backup_lba(dev: Device, base: u64) -> u64 {
    backup_lba_of(dev, primary_of(dev, base).facts)
}

/// Where the backup header of the table at `base` is.
pub open spec fn backup_at(dev: Device, base: u64) -> u64 {
    match common::checked(backup_lba(dev, base) * header::block_size(dev)) {
        Some(at) => at,
        None => 0,
    }
}

/// The backup header of the table at `base`.
pub open spec fn backup_of(dev: Device, base: u64) -> HeaderModel {
    header::header_of(
        dev,
        backup_at(dev, base),
        backup_lba(dev, base),
        last_lba_of(dev),
        false,
    )
}

/// The GPT at `base`.
pub open spec fn gpt_of(dev: Device, base: u64) -> GptModel {
    let block = header::block_size(dev);
    let p = primary_of(dev, base);
    let b = backup_of(dev, base);
    let pplan = array::plan_of(dev, p.facts);
    let bplan = array::plan_of(dev, b.facts);
    GptModel {
        spans: covering(
            seq![
                Span::of_bytes(primary_at(dev, base), block),
                plan_span(pplan),
                plan_span(bplan),
                Span::of_bytes(backup_at(dev, base), block),
            ],
        ),
        primary: p,
        primary_plan: pplan,
        entries: array::row_of(pplan, p.facts, sectors_of(dev)),
        backup_entries: array::row_of(bplan, b.facts, sectors_of(dev)),
        backup_plan: bplan,
        backup: b,
        compare: compare::comparison_of(p, b, pplan, bplan, block),
        findings: seq![mbr_finding(dev, base)] + listed(
            presence_finding(
                p.facts,
                b.facts,
                primary_at(dev, base) / block,
                backup_lba(dev, base),
            ),
        ),
    }
}

fn span_of(plan: &ArrayPlan) -> (r: Span)
    ensures
        r == plan_span(plan@),
{
    match plan.at {
        Some(at) => Span::bytes(at, common::saturating_mul(plan.count, plan.entry_size)),
        None => Span::bytes(0, 0),
    }
}

fn region_extent(parts: &[Span]) -> (r: Vec<Span>)
    ensures
        r@ == covering(parts@),
{
    let mut out: Vec<Span> = Vec::new();
    let mut i: usize = 0;
    while i < parts.len()
        invariant
            i <= parts@.len(),
            out@ == covering(parts@.take(i as int)),
        decreases parts@.len() - i,
    {
        assert(parts@.take(i + 1).drop_last() =~= parts@.take(i as int));
        if parts[i].len > 0 {
            out.push(parts[i]);
        }
        i += 1;
    }
    assert(parts@.take(i as int) =~= parts@);
    out
}

/// Reads the GPT at an offset of a device.
#[derive(Debug)]
pub struct GptReader<'a, S: BlockSource> {
    src: &'a S,
    base: u64,
}

impl<'a, S: BlockSource> GptReader<'a, S> {
    /// The device that is read.
    pub closed spec fn source(&self) -> &'a S {
        self.src
    }

    /// Where the table starts.
    pub closed spec fn start(&self) -> u64 {
        self.base
    }

    pub fn new(src: &'a S, base: u64) -> (r: GptReader<'a, S>)
        ensures
            r.source() == src,
            r.start() == base,
    {
        GptReader { src, base }
    }

    /// The identifier of the format.
    pub fn id(&self) -> (r: &'static str)
        ensures
            r@ == "gpt"@,
    {
        "gpt"
    }

    pub fn base(&self) -> (r: u64)
        ensures
            r == self.start(),
    {
        self.base
    }

    fn has_signature(&self, lba: u64) -> (r: bool)
        ensures
            r == signed_at(self.source().device(), lba),
    {
        let size: u32 = read_block_size(self.src);
        assert(lba * size >= 0) by (nonlinear_arith)
            requires
                lba >= 0,
                size >= 0,
        ;
        match lba_to_byte(lba, size) {
            Some(at) => match read_exact_opt(self.src, at, 8) {
                Some(b) => is_signed(&b),
                None => false,
            },
            None => false,
        }
    }

    /// Prefer the last sector; fall back to the sector that the primary names when the
    /// last holds no signature and that one does.
    fn locate_backup(&self, pf: &HeaderFacts) -> (r: u64)
        ensures
            r == backup_lba_of(self.source().device(), *pf),
    {
        let last: u64 = last_lba(self.src);
        if self.has_signature(last) {
            return last;
        }
        let alt: u64 = pf.alternate_lba;
        if pf.present && alt != 0 && alt != pf.my_lba && alt <= last && self.has_signature(alt) {
            return alt;
        }
        last
    }

    /// Read the table. Both copies are read whatever either looks like.
    pub fn root(&self) -> (r: Gpt)
        ensures
            r@ == gpt_of(self.source().device(), self.start()),
    {
        let src = self.src;
        let size: u32 = read_block_size(src);
        let block: u64 = size as u64;
        let sectors: u64 = src.len() / block;
        let last: u64 = last_lba(src);
        let p_at: u64 = self.base.saturating_add(block);
        let primary = read_header(src, p_at, p_at / block, last, true);
        let primary_plan = plan_entries(src, &primary.facts);
        let b_lba: u64 = self.locate_backup(&primary.facts);
        assert(b_lba * size >= 0) by (nonlinear_arith)
            requires
                b_lba >= 0,
                size >= 0,
        ;
        let b_at: u64 = match lba_to_byte(b_lba, size) {
            Some(at) => at,
            None => 0,
        };
        let backup = read_header(src, b_at, b_lba, last, false);
        let backup_plan = plan_entries(src, &backup.facts);
        let entries = array_row(&primary_plan, &primary.facts, sectors);
        let backup_entries = array_row(&backup_plan, &backup.facts, sectors);
        let compare = compare_copies(&primary, &backup, &primary_plan, &backup_plan, block);
        let parts: Vec<Span> = vec![
            Span::bytes(p_at, block),
            span_of(&primary_plan),
            span_of(&backup_plan),
            Span::bytes(b_at, block),
        ];
        let spans: Vec<Span> = region_extent(&parts);
        let mut findings: Vec<Finding> = vec![protective_mbr_diag(src, self.base)];
        let present = presence_diag(&primary.facts, &backup.facts, p_at / block, b_lba);
        if let Some(f) = present {
            findings.push(f);
        }
        proof {
            let want = gpt_of(src.device(), self.base);
            assert(findings@ =~= want.findings);
            assert(parts@ =~= seq![
                Span::of_bytes(p_at, block),
                plan_span(primary_plan@),
                plan_span(backup_plan@),
                Span::of_bytes(b_at, block),
            ]);
        }
        Gpt {
            spans,
            primary,
            primary_plan,
            entries,
            backup_entries,
            backup_plan,
            backup,
            compare,
            findings,
        }
    }
}

// ------------------------------------------------------------------------ status

impl GptModel {
    /// How serious the worst thing in the table is, the entries apart.
    pub open spec fn severity(self) -> Status {
        finding::worst(self.findings).worse(self.primary.severity()).worse(
            finding::worst(self.primary_plan.findings),
        ).worse(self.backup.severity()).worse(finding::worst(self.backup_plan.findings)).worse(
            self.compare.severity(),
        ).worse(finding::worst(listed(self.entries.finding))).worse(
            finding::worst(listed(self.backup_entries.finding)),
        )
    }
}

fn worst_option(f: Option<Finding>) -> (r: Status)
    ensures
        r == finding::worst(listed(f)),
{
    match f {
        Some(f) => {
            let one: Vec<Finding> = vec![f];
            assert(one@ =~= listed(Some(f)));
            worst_of(&one)
        },
        None => Status::Clean,
    }
}

impl Gpt {
    /// How serious the worst thing in the table is, the entries apart: those are read
    /// when they are asked for.
    pub fn deep_status(&self) -> (r: Status)
        ensures
            r == self@.severity(),
    {
        worst_of(&self.findings).merge(self.primary.status()).merge(
            worst_of(&self.primary_plan.findings),
        ).merge(self.backup.status()).merge(worst_of(&self.backup_plan.findings)).merge(
            self.compare.status(),
        ).merge(worst_option(self.entries.finding)).merge(
            worst_option(self.backup_entries.finding),
        )
    }
}

} // verus!
