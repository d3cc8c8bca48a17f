//! One header block: its fields, its own checksum, and where it stands.

use crate::checksum::ChecksumAlgo;
use crate::common;
use crate::common::{u32_or_zero, u64_or_zero};
use crate::desc::{read_struct, struct_of, ReadCtx, Record, RecordModel};
use crate::extent::Span;
use crate::gpt::desc;
use crate::gpt::finding;
use crate::gpt::finding::{note, worst_of, Finding};
use crate::source::{BlockSource, Device};
use crate::status::Status;
use vstd::prelude::*;
use vstd::slice::slice_subrange;

verus! {

// ------------------------------------------------------------------------ facts

/// The eight bytes that identify a GPT: `EFI PART`.
pub open spec fn signature() -> Seq<u8> {
    seq![0x45u8, 0x46, 0x49, 0x20, 0x50, 0x41, 0x52, 0x54]
}

/// The bytes start with the signature.
pub open spec fn signed(b: Seq<u8>) -> bool {
    b.len() >= 8 && b.subrange(0, 8) == signature()
}

/// True when the bytes start with the signature.
pub fn is_signed(b: &[u8]) -> (r: bool)
    ensures
        r == signed(b@),
{
    if b.len() < 8 {
        return false;
    }
    let r: bool = b[0] == 0x45 && b[1] == 0x46 && b[2] == 0x49 && b[3] == 0x20 && b[4] == 0x50
        && b[5] == 0x41 && b[6] == 0x52 && b[7] == 0x54;
    proof {
        let got = b@.subrange(0, 8);
        if r {
            assert(got =~= signature());
        } else if got == signature() {
            assert(got[0] == b@[0] && got[1] == b@[1] && got[2] == b@[2] && got[3] == b@[3]
                && got[4] == b@[4] && got[5] == b@[5] && got[6] == b@[6] && got[7] == b@[7]);
        }
    }
    r
}

/// Every one of `n` bytes at `off` is zero. Bytes that were not read count as zero.
pub open spec fn zero_at(b: Seq<u8>, off: int, n: int) -> bool {
    b.len() < off + n || forall|i: int| off <= i < off + n ==> #[trigger] b[i] == 0
}

/// True when the `n` bytes at `off` are zero, or were not all read.
pub fn is_zero_at(b: &[u8], off: usize, n: usize) -> (r: bool)
    requires
        off + n <= usize::MAX,
    ensures
        r == zero_at(b@, off as int, n as int),
{
    if b.len() < off + n {
        return true;
    }
    let mut i: usize = off;
    while i < off + n
        invariant
            off <= i <= off + n,
            off + n <= b@.len(),
            off + n <= usize::MAX,
            forall|j: int| off <= j < i ==> #[trigger] b@[j] == 0,
        decreases off + n - i,
    {
        if b[i] != 0 {
            return false;
        }
        i += 1;
    }
    true
}

/// The numbers from a header that traversal and the cross-checks need, decoded once.
#[derive(Clone, Copy, Debug, PartialEq, Eq, Structural)]
pub struct HeaderFacts {
    pub present: bool,
    pub revision: u64,
    pub header_size: u64,
    pub my_lba: u64,
    pub alternate_lba: u64,
    pub first_usable: u64,
    pub last_usable: u64,
    /// The disk GUID is all zero.
    pub anonymous: bool,
    pub entries_lba: u64,
    pub num_entries: u64,
    pub entry_size: u64,
    pub entries_crc32: u64,
}

/// The facts that a header block states. What was not read counts as zero.
pub open spec fn facts_of(b: Seq<u8>) -> HeaderFacts {
    HeaderFacts {
        present: signed(b),
        revision: common::le32_or_zero(b, 0x08) as u64,
        header_size: common::le32_or_zero(b, 0x0C) as u64,
        my_lba: common::le64_or_zero(b, 0x18),
        alternate_lba: common::le64_or_zero(b, 0x20),
        first_usable: common::le64_or_zero(b, 0x28),
        last_usable: common::le64_or_zero(b, 0x30),
        anonymous: zero_at(b, 0x38, 16),
        entries_lba: common::le64_or_zero(b, 0x48),
        num_entries: common::le32_or_zero(b, 0x50) as u64,
        entry_size: common::le32_or_zero(b, 0x54) as u64,
        entries_crc32: common::le32_or_zero(b, 0x58) as u64,
    }
}

impl HeaderFacts {
    /// Decode a header block.
    pub fn from_bytes(b: &[u8]) -> (r: HeaderFacts)
        ensures
            r == facts_of(b@),
    {
        HeaderFacts {
            present: is_signed(b),
            revision: u32_or_zero(b, 0x08) as u64,
            header_size: u32_or_zero(b, 0x0C) as u64,
            my_lba: u64_or_zero(b, 0x18),
            alternate_lba: u64_or_zero(b, 0x20),
            first_usable: u64_or_zero(b, 0x28),
            last_usable: u64_or_zero(b, 0x30),
            anonymous: is_zero_at(b, 0x38, 16),
            entries_lba: u64_or_zero(b, 0x48),
            num_entries: u32_or_zero(b, 0x50) as u64,
            entry_size: u32_or_zero(b, 0x54) as u64,
            entries_crc32: u32_or_zero(b, 0x58) as u64,
        }
    }
}

// --------------------------------------------------------------------- checksum

/// A stored checksum against the computed one.
#[derive(Clone, Copy, Debug, PartialEq, Eq, Structural)]
pub struct CrcCheck {
    pub stored: u64,
    pub computed: u64,
}

impl CrcCheck {
    /// The two agree.
    pub open spec fn agrees(self) -> bool {
        self.stored == self.computed
    }

    pub fn matches(&self) -> (r: bool)
        ensures
            r == self.agrees(),
    {
        self.stored == self.computed
    }
}

/// The bytes that a header's checksum covers: as many as the header claims, of those
/// there are.
pub open spec fn covered(b: Seq<u8>) -> Seq<u8> {
    let claimed = common::le32_or_zero(b, 0x0C);
    if claimed <= b.len() {
        b.take(claimed as int)
    } else {
        b
    }
}

/// The CRC-32 of a header with its own four bytes taken as zero.
pub open spec fn header_crc(b: Seq<u8>) -> u64 {
    ChecksumAlgo::Crc32.value(covered(b), seq![(16u64, 4u64)]) as u64
}

/// The check of a header's own checksum, where the block holds one.
pub open spec fn crc_of(b: Seq<u8>) -> Option<CrcCheck> {
    if common::holds(b, 0x10, 4) {
        Some(CrcCheck { stored: common::le32(b, 0x10) as u64, computed: header_crc(b) })
    } else {
        None
    }
}

/// The header passes its own checksum.
pub open spec fn crc_passes(b: Seq<u8>) -> bool {
    crc_of(b) matches Some(c) && c.agrees()
}

fn check_crc(b: &[u8]) -> (r: Option<CrcCheck>)
    ensures
        r == crc_of(b@),
{
    if b.len() < 0x14 {
        return None;
    }
    let claimed: u64 = u32_or_zero(b, 0x0C) as u64;
    let n: usize = if claimed <= b.len() as u64 { claimed as usize } else { b.len() };
    let part: &[u8] = slice_subrange(b, 0, n);
    assert(part@ =~= covered(b@));
    let ranges: Vec<(u64, u64)> = vec![(16u64, 4u64)];
    assert(ranges@ =~= seq![(16u64, 4u64)]);
    let computed: u64 = ChecksumAlgo::Crc32.compute(part, &ranges);
    Some(CrcCheck { stored: u32_or_zero(b, 0x10) as u64, computed })
}

// ----------------------------------------------------------------- cross-checks

/// Whether the claimed size fits between a header and a block.
pub open spec fn size_findings(f: HeaderFacts, block: u64) -> Seq<Finding> {
    finding::when(
        f.header_size < desc::MIN_HEADER_SIZE,
        Finding::HeaderSizeSmall { size: f.header_size },
    ) + finding::when(
        f.header_size >= desc::MIN_HEADER_SIZE && f.header_size > block,
        Finding::HeaderSizeLarge { size: f.header_size, block },
    )
}

/// What is said of where the other copy is claimed to be.
pub open spec fn alternate_findings(f: HeaderFacts, last_lba: u64, is_primary: bool) -> Seq<
    Finding,
> {
    if f.alternate_lba == 0 {
        seq![Finding::NoAlternate]
    } else if f.alternate_lba == f.my_lba {
        seq![Finding::AlternateSelf]
    } else if f.alternate_lba > last_lba {
        seq![Finding::AlternatePast { alternate: f.alternate_lba, last_lba }]
    } else {
        finding::when(
            is_primary && f.alternate_lba != last_lba,
            Finding::AlternateNotLast { last_lba, alternate: f.alternate_lba },
        )
    }
}

/// The checks that need to know how big the device actually is. Without a signature
/// only the size means anything.
pub open spec fn header_findings(
    f: HeaderFacts,
    at_lba: u64,
    last_lba: u64,
    block: u64,
    is_primary: bool,
) -> Seq<Finding> {
    if !f.present {
        size_findings(f, block)
    } else {
        size_findings(f, block) + finding::when(
            f.my_lba != at_lba,
            Finding::WrongLba { my_lba: f.my_lba, at_lba },
        ) + alternate_findings(f, last_lba, is_primary) + finding::when(
            f.first_usable > f.last_usable,
            Finding::UsableInverted { first: f.first_usable, last: f.last_usable },
        ) + finding::when(
            f.last_usable > last_lba,
            Finding::UsablePast { last: f.last_usable, last_lba },
        ) + finding::when(f.anonymous, Finding::DiskGuidZero)
    }
}

/// Check a header against the device it was read from.
pub fn annotate_header(
    f: &HeaderFacts,
    at_lba: u64,
    last_lba: u64,
    block: u64,
    is_primary: bool,
) -> (out: Vec<Finding>)
    ensures
        out@ == header_findings(*f, at_lba, last_lba, block, is_primary),
{
    let mut out: Vec<Finding> = Vec::new();
    let small: bool = f.header_size < desc::MIN_HEADER_SIZE as u64;
    note(&mut out, small, Finding::HeaderSizeSmall { size: f.header_size });
    note(
        &mut out,
        !small && f.header_size > block,
        Finding::HeaderSizeLarge { size: f.header_size, block },
    );
    assert(out@ =~= size_findings(*f, block));
    if !f.present {
        return out;
    }
    note(&mut out, f.my_lba != at_lba, Finding::WrongLba { my_lba: f.my_lba, at_lba });
    let ghost start = out@;
    if f.alternate_lba == 0 {
        out.push(Finding::NoAlternate);
    } else if f.alternate_lba == f.my_lba {
        out.push(Finding::AlternateSelf);
    } else if f.alternate_lba > last_lba {
        out.push(Finding::AlternatePast { alternate: f.alternate_lba, last_lba });
    } else {
        note(
            &mut out,
            is_primary && f.alternate_lba != last_lba,
            Finding::AlternateNotLast { last_lba, alternate: f.alternate_lba },
        );
    }
    assert(out@ =~= start + alternate_findings(*f, last_lba, is_primary));
    note(
        &mut out,
        f.first_usable > f.last_usable,
        Finding::UsableInverted { first: f.first_usable, last: f.last_usable },
    );
    note(
        &mut out,
        f.last_usable > last_lba,
        Finding::UsablePast { last: f.last_usable, last_lba },
    );
    note(&mut out, f.anonymous, Finding::DiskGuidZero);
    out
}

// ------------------------------------------------------------------- the header

/// What follows the header in its block: reserved, and required to be zero.
#[derive(Debug)]
pub struct Padding {
    pub span: Span,
    pub findings: Vec<Finding>,
}

/// What a [`Padding`] says.
pub struct PaddingModel {
    pub span: Span,
    pub findings: Seq<Finding>,
}

impl View for Padding {
    type V = PaddingModel;

    open spec fn view(&self) -> PaddingModel {
        PaddingModel { span: self.span, findings: self.findings@ }
    }
}

/// One header block as it was read.
#[derive(Debug)]
pub struct Header {
    pub span: Span,
    pub block: Vec<u8>,
    pub record: Record,
    pub facts: HeaderFacts,
    pub crc: Option<CrcCheck>,
    pub padding: Option<Padding>,
    /// What is said of the header as a whole and of its fields.
    pub findings: Vec<Finding>,
}

/// What a [`Header`] says.
pub struct HeaderModel {
    pub span: Span,
    pub block: Seq<u8>,
    pub record: RecordModel,
    pub facts: HeaderFacts,
    pub crc: Option<CrcCheck>,
    pub padding: Option<PaddingModel>,
    pub findings: Seq<Finding>,
}

impl View for Header {
    type V = HeaderModel;

    open spec fn view(&self) -> HeaderModel {
        HeaderModel {
            span: self.span,
            block: self.block@,
            record: self.record@,
            facts: self.facts,
            crc: self.crc,
            padding: match self.padding {
                Some(p) => Some(p@),
                None => None,
            },
            findings: self.findings@,
        }
    }
}

/// What follows the header in the block read at `at`.
pub open spec fn padding_of(b: Seq<u8>, at: u64) -> Option<PaddingModel> {
    if b.len() > 92 {
        let claimed = common::le32(b, 0x0C) as u64;
        Some(
            PaddingModel {
                span: Span::of_bytes(common::saturated(at + 92), (b.len() - 92) as u64),
                findings: finding::when(
                    claimed > 92,
                    Finding::PaddingInside { size: claimed, inside: (claimed - 92) as u64 },
                ) + finding::when(
                    !zero_at(b, 92, b.len() - 92),
                    Finding::PaddingDirty,
                ),
            },
        )
    } else {
        None
    }
}

/// The block size of a device. A sector size of zero counts as one.
pub open spec fn block_size(dev: Device) -> u64 {
    if dev.sector_size == 0 {
        1
    } else {
        dev.sector_size as u64
    }
}

/// The finding of a checksum that does not match.
pub open spec fn crc_findings(c: Option<CrcCheck>) -> Seq<Finding> {
    match c {
        Some(c) => finding::when(
            !c.agrees(),
            Finding::HeaderCrc { stored: c.stored, computed: c.computed },
        ),
        None => Seq::empty(),
    }
}

/// The header at `at`, which is sector `at_lba`.
pub open spec fn header_of(
    dev: Device,
    at: u64,
    at_lba: u64,
    last_lba: u64,
    is_primary: bool,
) -> HeaderModel {
    let r = dev.read(at, block_size(dev));
    let b = r.data;
    HeaderModel {
        span: Span::of_bytes(at, if b.len() == 0 { 92 } else { b.len() as u64 }),
        block: b,
        record: struct_of(
            "GPT header"@,
            desc::gpt_header_fields(),
            b,
            r.refused(),
            at,
            at,
        ),
        facts: facts_of(b),
        crc: crc_of(b),
        padding: padding_of(b, at),
        findings: crc_findings(crc_of(b)) + header_findings(
            facts_of(b),
            at_lba,
            last_lba,
            block_size(dev),
            is_primary,
        ),
    }
}

/// The block size of a device.
pub fn read_block_size<S: BlockSource>(src: &S) -> (r: u32)
    ensures
        r == block_size(src.device()),
        r > 0,
{
    let ss: u32 = src.logical_sector_size();
    if ss == 0 {
        1
    } else {
        ss
    }
}

fn read_padding(block: &[u8], at: u64) -> (r: Option<Padding>)
    ensures
        match padding_of(block@, at) {
            Some(m) => r matches Some(p) && p@ == m,
            None => r is None,
        },
{
    if block.len() <= 92 {
        return None;
    }
    let rest: usize = block.len() - 92;
    let claimed: u64 = u32_or_zero(block, 0x0C) as u64;
    let mut findings: Vec<Finding> = Vec::new();
    let inside: u64 = if claimed > 92 { claimed - 92 } else { 0 };
    note(&mut findings, claimed > 92, Finding::PaddingInside { size: claimed, inside });
    note(&mut findings, !is_zero_at(block, 92, rest), Finding::PaddingDirty);
    let p = Padding { span: Span::bytes(at.saturating_add(92), rest as u64), findings };
    proof {
        assert(findings@ =~= padding_of(block@, at).unwrap().findings);
    }
    Some(p)
}

/// Read one header block.
///
/// The whole block is read even though the fields end after 92 bytes: the checksum
/// covers as many bytes as the header claims, and a tail that is not zero is worth
/// seeing.
pub fn read_header<S: BlockSource>(
    src: &S,
    at: u64,
    at_lba: u64,
    last_lba: u64,
    is_primary: bool,
) -> (r: Header)
    ensures
        r@ == header_of(src.device(), at, at_lba, last_lba, is_primary),
{
    let size: u64 = read_block_size(src) as u64;
    let (block, outcome) = src.read_vec(at, size);
    let layout = desc::gpt_header();
    let record = read_struct(&layout, &block, outcome, ReadCtx::at(at));
    let facts = HeaderFacts::from_bytes(&block);
    let crc = check_crc(&block);
    let mut findings: Vec<Finding> = Vec::new();
    if let Some(c) = crc {
        note(
            &mut findings,
            !c.matches(),
            Finding::HeaderCrc { stored: c.stored, computed: c.computed },
        );
    }
    assert(findings@ =~= crc_findings(crc));
    let mut more: Vec<Finding> = annotate_header(&facts, at_lba, last_lba, size, is_primary);
    findings.append(&mut more);
    let padding = read_padding(&block, at);
    let covered: u64 = if block.len() == 0 { 92 } else { block.len() as u64 };
    Header { span: Span::bytes(at, covered), block, record, facts, crc, padding, findings }
}

impl HeaderModel {
    /// How serious the worst thing in the header is.
    pub open spec fn severity(self) -> Status {
        self.record.severity().worse(finding::worst(self.findings)).worse(
            match self.padding {
                Some(p) => finding::worst(p.findings),
                None => Status::Clean,
            },
        )
    }
}

impl Header {
    /// How serious the worst thing in the header is.
    pub fn status(&self) -> (r: Status)
        ensures
            r == self@.severity(),
    {
        let tail = match &self.padding {
            Some(p) => worst_of(&p.findings),
            None => Status::Clean,
        };
        self.record.status().merge(worst_of(&self.findings)).merge(tail)
    }
}

} // verus!
