//! The partition entry array: where it is, whether its checksum holds, and what is in
//! it.
//!
//! The number of entries and their size are 32-bit values straight off the disk, and
//! their product is the length of a read. Both are clamped before they are multiplied.

use crate::checksum::ChecksumAlgo;
use crate::common;
use crate::common::{
    div_ceil, in_bounds, lba_to_byte, min_u64, mul_add, read_exact_opt, saturating_mul,
};
use crate::desc::{read_desc_at, record_of, ReadCtx, Record, RecordModel};
use crate::extent::Span;
use crate::gpt::attributes;
use crate::gpt::desc;
use crate::gpt::entry;
use crate::gpt::entry::{
    annotate_entry, label_for_entry, mark_overlaps, EntryFacts, EntryFactsModel,
};
use crate::gpt::finding;
use crate::gpt::finding::{note, worst_of, Finding};
use crate::gpt::header;
use crate::gpt::header::{read_block_size, CrcCheck, HeaderFacts};
use crate::source::{BlockSource, Device};
use crate::status::Status;
use vstd::prelude::*;

verus! {

/// Entries that are looked at. Every real table has 128.
pub const MAX_ENTRIES: u64 = 4096;

/// Ceiling on the size of an entry.
pub const MAX_ENTRY_SIZE: u64 = 4096;

/// Most bytes that are read purely to verify the array's checksum.
pub const MAX_ARRAY_BYTES: u64 = 0x40_0000;

// --------------------------------------------------------------------- the plan

/// Where the entry array is and how much of it is looked at.
#[derive(Debug)]
pub struct ArrayPlan {
    /// Absolute offset, when the array starts somewhere on the device.
    pub at: Option<u64>,
    /// Entries to look at: clamped, and not necessarily what the header claims.
    pub count: u64,
    /// Distance between entries, clamped.
    pub entry_size: u64,
    /// The range that the array's checksum covers, when it was readable in full.
    pub bytes: Option<Vec<u8>>,
    /// The array's checksum, when it could be computed.
    pub crc: Option<CrcCheck>,
    pub findings: Vec<Finding>,
}

/// What an [`ArrayPlan`] says.
pub struct ArrayPlanModel {
    pub at: Option<u64>,
    pub count: u64,
    pub entry_size: u64,
    pub bytes: Option<Seq<u8>>,
    pub crc: Option<CrcCheck>,
    pub findings: Seq<Finding>,
}

impl View for ArrayPlan {
    type V = ArrayPlanModel;

    open spec fn view(&self) -> ArrayPlanModel {
        ArrayPlanModel {
            at: self.at,
            count: self.count,
            entry_size: self.entry_size,
            bytes: match self.bytes {
                Some(v) => Some(v@),
                None => None,
            },
            crc: self.crc,
            findings: self.findings@,
        }
    }
}

/// What is said of the size of an entry.
pub open spec fn size_findings(size: u64) -> Seq<Finding> {
    if size < 128 {
        seq![Finding::EntrySizeSmall { size }]
    } else if size % 8 != 0 {
        seq![Finding::EntrySizeOdd { size }]
    } else {
        finding::when(size > MAX_ENTRY_SIZE, Finding::EntrySizeLarge { size })
    }
}

/// What is said of the number of entries.
pub open spec fn count_findings(entries: u64) -> Seq<Finding> {
    if entries == 0 {
        seq![Finding::NoEntries]
    } else {
        finding::when(entries > MAX_ENTRIES, Finding::TooManyEntries { entries })
    }
}

/// `x`, held between `lo` and `hi`.
pub open spec fn clamped(x: u64, lo: u64, hi: u64) -> u64 {
    if x < lo {
        lo
    } else if x > hi {
        hi
    } else {
        x
    }
}

/// The length that the header declares for the array.
pub open spec fn declared(f: HeaderFacts) -> Option<u64> {
    common::checked(f.num_entries * f.entry_size)
}

/// The first sector after an array of `len` bytes.
pub open spec fn end_lba(f: HeaderFacts, len: u64, block: u64) -> u64 {
    common::saturated(f.entries_lba + common::ceil_div(len as int, block as int))
}

/// The array lies where partitions may be placed.
pub open spec fn in_usable(f: HeaderFacts, block: u64) -> bool {
    declared(f) matches Some(len) && len > 0 && f.first_usable <= f.last_usable && f.entries_lba
        < common::saturated(f.last_usable + 1) && f.first_usable < end_lba(f, len, block)
}

/// What is said of where the array is.
pub open spec fn place_findings(dev: Device, f: HeaderFacts, at: u64) -> Seq<Finding> {
    let block = header::block_size(dev);
    finding::when(at >= dev.len, Finding::ArrayPast { at, device_len: dev.len }) + finding::when(
        in_usable(f, block),
        Finding::ArrayInUsable {
            start: f.entries_lba,
            end: match declared(f) {
                Some(len) => end_lba(f, len, block),
                None => 0,
            },
            first: f.first_usable,
            last: f.last_usable,
        },
    )
}

/// The bytes that the array's checksum covers, when they can all be read.
pub open spec fn array_bytes(dev: Device, f: HeaderFacts, at: u64) -> Option<Seq<u8>> {
    match declared(f) {
        Some(len) if 0 < len <= MAX_ARRAY_BYTES && at + len <= dev.len && !dev.read(
            at,
            len,
        ).refused() && dev.read(at, len).data.len() == len => Some(dev.read(at, len).data),
        _ => None,
    }
}

/// The CRC-32 of an array.
pub open spec fn array_crc(bytes: Seq<u8>) -> u64 {
    ChecksumAlgo::Crc32.value(bytes, Seq::empty()) as u64
}

/// What is said of the array's checksum.
pub open spec fn crc_findings(dev: Device, f: HeaderFacts, at: u64) -> Seq<Finding> {
    match declared(f) {
        None => seq![Finding::CrcOverflow],
        Some(len) => if len == 0 {
            seq![Finding::CrcEmpty]
        } else if len > MAX_ARRAY_BYTES {
            seq![Finding::CrcTooLarge { len }]
        } else if at + len > dev.len {
            seq![Finding::CrcPast { at, len, device_len: dev.len }]
        } else {
            match array_bytes(dev, f, at) {
                Some(b) => finding::when(
                    f.entries_crc32 != array_crc(b),
                    Finding::EntriesCrc { stored: f.entries_crc32, computed: array_crc(b) },
                ),
                None => seq![Finding::ArrayUnreadable],
            }
        },
    }
}

/// The plan for the array that a header describes.
pub open spec fn plan_of(dev: Device, f: HeaderFacts) -> ArrayPlanModel {
    let block = header::block_size(dev);
    let count = if f.num_entries <= MAX_ENTRIES { f.num_entries } else { MAX_ENTRIES };
    let entry_size = clamped(f.entry_size, 128, MAX_ENTRY_SIZE);
    let shape = size_findings(f.entry_size) + count_findings(f.num_entries);
    match common::checked(f.entries_lba * block) {
        None => ArrayPlanModel {
            at: None,
            count,
            entry_size,
            bytes: None,
            crc: None,
            findings: shape + seq![Finding::ArrayOverflow],
        },
        Some(at) => ArrayPlanModel {
            at: if at < dev.len { Some(at) } else { None },
            count,
            entry_size,
            bytes: array_bytes(dev, f, at),
            crc: match array_bytes(dev, f, at) {
                Some(b) => Some(CrcCheck { stored: f.entries_crc32, computed: array_crc(b) }),
                None => None,
            },
            findings: shape + place_findings(dev, f, at) + crc_findings(dev, f, at),
        },
    }
}

/// Whatever a header claims, a plan looks at no more than 4096 entries of no more than
/// 4096 bytes each, and reads no more than 4 MiB to check their sum.
pub proof fn lemma_plans_are_bounded(dev: Device, f: HeaderFacts)
    ensures
        plan_of(dev, f).count <= MAX_ENTRIES,
        128 <= plan_of(dev, f).entry_size <= MAX_ENTRY_SIZE,
        plan_of(dev, f).at matches Some(at) ==> at < dev.len,
        plan_of(dev, f).bytes matches Some(b) ==> b.len() <= MAX_ARRAY_BYTES,
{
}

fn note_shape(f: &HeaderFacts) -> (out: Vec<Finding>)
    ensures
        out@ == size_findings(f.entry_size) + count_findings(f.num_entries),
{
    let mut out: Vec<Finding> = Vec::new();
    let size: u64 = f.entry_size;
    if size < 128 {
        out.push(Finding::EntrySizeSmall { size });
    } else if size % 8 != 0 {
        out.push(Finding::EntrySizeOdd { size });
    } else {
        note(&mut out, size > MAX_ENTRY_SIZE, Finding::EntrySizeLarge { size });
    }
    assert(out@ =~= size_findings(size));
    let entries: u64 = f.num_entries;
    if entries == 0 {
        out.push(Finding::NoEntries);
    } else {
        note(&mut out, entries > MAX_ENTRIES, Finding::TooManyEntries { entries });
    }
    assert(out@ =~= size_findings(size) + count_findings(entries));
    out
}

fn note_place<S: BlockSource>(src: &S, f: &HeaderFacts, at: u64) -> (out: Vec<Finding>)
    ensures
        out@ == place_findings(src.device(), *f, at),
{
    let mut out: Vec<Finding> = Vec::new();
    let device_len: u64 = src.len();
    note(&mut out, at >= device_len, Finding::ArrayPast { at, device_len });
    let block: u64 = read_block_size(src) as u64;
    let len = mul_add(f.num_entries, f.entry_size, 0);
    assert(len == declared(*f));
    let end: u64 = match len {
        Some(len) => f.entries_lba.saturating_add(div_ceil(len, block)),
        None => 0,
    };
    let inside: bool = match len {
        Some(len) => len > 0 && f.first_usable <= f.last_usable && f.entries_lba
            < f.last_usable.saturating_add(1) && f.first_usable < end,
        None => false,
    };
    note(
        &mut out,
        inside,
        Finding::ArrayInUsable {
            start: f.entries_lba,
            end,
            first: f.first_usable,
            last: f.last_usable,
        },
    );
    assert(out@ =~= place_findings(src.device(), *f, at));
    out
}

fn verify_entries_crc<S: BlockSource>(src: &S, f: &HeaderFacts, at: u64) -> (r: (
    Option<Vec<u8>>,
    Option<CrcCheck>,
    Vec<Finding>,
))
    ensures
        match array_bytes(src.device(), *f, at) {
            Some(b) => r.0 matches Some(v) && v@ == b && r.1 == Some(
                CrcCheck { stored: f.entries_crc32, computed: array_crc(b) },
            ),
            None => r.0 is None && r.1 is None,
        },
        r.2@ == crc_findings(src.device(), *f, at),
{
    let len: u64 = match mul_add(f.num_entries, f.entry_size, 0) {
        Some(len) => len,
        None => {
            return (None, None, vec![Finding::CrcOverflow]);
        },
    };
    assert(declared(*f) == Some(len));
    if len == 0 {
        return (None, None, vec![Finding::CrcEmpty]);
    }
    if len > MAX_ARRAY_BYTES {
        return (None, None, vec![Finding::CrcTooLarge { len }]);
    }
    if !in_bounds(src, at, len) {
        return (None, None, vec![Finding::CrcPast { at, len, device_len: src.len() }]);
    }
    match read_exact_opt(src, at, len) {
        Some(bytes) => {
            if bytes.len() as u64 == len {
                let ranges: Vec<(u64, u64)> = Vec::new();
                assert(ranges@ =~= Seq::empty());
                let computed: u64 = ChecksumAlgo::Crc32.compute(&bytes, &ranges);
                let crc = CrcCheck { stored: f.entries_crc32, computed };
                let mut out: Vec<Finding> = Vec::new();
                note(
                    &mut out,
                    !crc.matches(),
                    Finding::EntriesCrc { stored: f.entries_crc32, computed },
                );
                assert(out@ =~= crc_findings(src.device(), *f, at));
                return (Some(bytes), Some(crc), out);
            }
        },
        None => {},
    }
    (None, None, vec![Finding::ArrayUnreadable])
}

/// Resolve the array's place, verify its checksum, and report every way the fields
/// that describe it can be wrong.
pub fn plan_entries<S: BlockSource>(src: &S, f: &HeaderFacts) -> (r: ArrayPlan)
    ensures
        r@ == plan_of(src.device(), *f),
{
    let mut findings: Vec<Finding> = note_shape(f);
    let count: u64 = min_u64(f.num_entries, MAX_ENTRIES);
    let entry_size: u64 = if f.entry_size < 128 {
        128
    } else {
        min_u64(f.entry_size, MAX_ENTRY_SIZE)
    };
    assert(f.entries_lba * header::block_size(src.device()) >= 0) by (nonlinear_arith)
        requires
            f.entries_lba >= 0,
            header::block_size(src.device()) >= 0,
    ;
    match lba_to_byte(f.entries_lba, read_block_size(src)) {
        None => {
            findings.push(Finding::ArrayOverflow);
            let r = ArrayPlan { at: None, count, entry_size, bytes: None, crc: None, findings };
            assert(r@.findings =~= plan_of(src.device(), *f).findings);
            r
        },
        Some(at) => {
            let mut place: Vec<Finding> = note_place(src, f, at);
            findings.append(&mut place);
            let (bytes, crc, mut more) = verify_entries_crc(src, f, at);
            findings.append(&mut more);
            let r = ArrayPlan {
                at: if at < src.len() { Some(at) } else { None },
                count,
                entry_size,
                bytes,
                crc,
                findings,
            };
            assert(r@.findings =~= plan_of(src.device(), *f).findings);
            r
        },
    }
}

// -------------------------------------------------------------------- the array

/// The array, before it is expanded.
#[derive(Clone, Copy, Debug, PartialEq, Eq, Structural)]
pub struct EntryArray {
    pub at: u64,
    pub count: u64,
    pub entry_size: u64,
    pub first_usable: u64,
    pub last_usable: u64,
    pub device_lbas: u64,
}

/// Bytes of an entry past the 128 that are defined.
#[derive(Debug)]
pub struct VendorTail {
    pub span: Span,
    /// What could be read of it; nothing where the device refused.
    pub bytes: Vec<u8>,
}

/// What a [`VendorTail`] says.
pub struct VendorTailModel {
    pub span: Span,
    pub bytes: Seq<u8>,
}

impl View for VendorTail {
    type V = VendorTailModel;

    open spec fn view(&self) -> VendorTailModel {
        VendorTailModel { span: self.span, bytes: self.bytes@ }
    }
}

/// The model of a tail, where there is one.
pub open spec fn tail_model(t: Option<VendorTail>) -> Option<VendorTailModel> {
    match t {
        Some(t) => Some(t@),
        None => None,
    }
}

/// The tail of an entry of `entry_size` bytes at `off`.
pub open spec fn tail_of(dev: Device, off: u64, entry_size: u64) -> Option<VendorTailModel> {
    if entry_size > 128 {
        let at = common::saturated(off + 128);
        let len = (entry_size - 128) as u64;
        let r = dev.read(at, len);
        Some(
            VendorTailModel {
                span: Span::of_bytes(at, len),
                bytes: if r.refused() { Seq::empty() } else { r.data },
            },
        )
    } else {
        None
    }
}

/// One entry as it was read.
#[derive(Debug)]
pub struct GptEntry {
    pub span: Span,
    pub record: Record,
    pub facts: EntryFacts,
    pub label: String,
    pub tail: Option<VendorTail>,
    pub findings: Vec<Finding>,
}

/// What a [`GptEntry`] says.
pub struct GptEntryModel {
    pub span: Span,
    pub record: RecordModel,
    pub facts: EntryFactsModel,
    pub label: Seq<char>,
    pub tail: Option<VendorTailModel>,
    pub findings: Seq<Finding>,
}

impl View for GptEntry {
    type V = GptEntryModel;

    open spec fn view(&self) -> GptEntryModel {
        GptEntryModel {
            span: self.span,
            record: self.record@,
            facts: self.facts@,
            label: self.label@,
            tail: tail_model(self.tail),
            findings: self.findings@,
        }
    }
}

/// The models of a list of entries.
pub open spec fn entry_models(entries: Seq<GptEntry>) -> Seq<GptEntryModel> {
    Seq::new(entries.len(), |i: int| entries[i]@)
}

impl EntryArray {
    /// Where entry `i` is, as a mathematical number.
    pub open spec fn place(self, i: int) -> int {
        self.at + i * self.entry_size
    }

    /// How many of the entries from `i` on have an offset that fits 64 bits, up to the
    /// first that has none.
    pub open spec fn reachable(self, i: nat) -> nat
        decreases self.count - i,
    {
        if i >= self.count || self.place(i as int) > u64::MAX {
            i
        } else {
            self.reachable(i + 1)
        }
    }

    /// The facts of the entries there are.
    pub open spec fn all_facts(self, dev: Device) -> Seq<EntryFactsModel> {
        Seq::new(
            self.reachable(0),
            |i: int| entry::facts_of(dev.read(self.place(i) as u64, 128).data),
        )
    }

    /// Entry `i`.
    pub open spec fn entry_of(self, dev: Device, i: int) -> GptEntryModel {
        let off = self.place(i) as u64;
        let facts = self.all_facts(dev);
        GptEntryModel {
            span: Span::of_bytes(off, if self.entry_size > 128 { self.entry_size } else { 128 }),
            record: record_of(
                dev,
                "GPT partition entry"@,
                128,
                desc::gpt_entry_fields(),
                off,
                off,
            ),
            facts: facts[i],
            label: entry::entry_label(i, facts[i]),
            tail: tail_of(dev, off, self.entry_size),
            findings: entry::entry_findings(
                facts[i],
                self.first_usable,
                self.last_usable,
                self.device_lbas,
            ) + entry::overlap_findings(facts, i),
        }
    }

    /// Every entry there is.
    pub open spec fn expanded(self, dev: Device) -> Seq<GptEntryModel> {
        Seq::new(self.reachable(0), |i: int| self.entry_of(dev, i))
    }

    /// How many entries there are to expand.
    pub fn hint_len(&self) -> (r: u64)
        ensures
            r == self.count,
    {
        self.count
    }

    fn read_facts<S: BlockSource>(&self, src: &S) -> (r: (Vec<u64>, Vec<EntryFacts>))
        requires
            self.count <= u32::MAX,
        ensures
            entry::fact_models(r.1@) == self.all_facts(src.device()),
            r.1@.len() == self.reachable(0) <= self.count,
            r.0@.len() == r.1@.len(),
            forall|i: int| 0 <= i < r.0@.len() ==> #[trigger] r.0@[i] == self.place(i),
    {
        let ghost dev = src.device();
        let mut places: Vec<u64> = Vec::new();
        let mut facts: Vec<EntryFacts> = Vec::new();
        let mut i: u64 = 0;
        loop
            invariant
                dev == src.device(),
                i <= self.count <= u32::MAX,
                self.reachable(0) == self.reachable(i as nat),
                places@.len() == i,
                facts@.len() == i,
                forall|j: int| 0 <= j < i ==> #[trigger] places@[j] == self.place(j),
                forall|j: int|
                    0 <= j < i ==> (#[trigger] facts@[j])@ == entry::facts_of(
                        dev.read(self.place(j) as u64, 128).data,
                    ),
            ensures
                i == self.reachable(0),
            decreases self.count - i,
        {
            if i >= self.count {
                break;
            }
            assert(i * self.entry_size >= 0) by (nonlinear_arith)
                requires
                    i >= 0,
                    self.entry_size >= 0,
            ;
            let off: u64 = match mul_add(i, self.entry_size, self.at) {
                Some(off) => off,
                None => {
                    break;
                },
            };
            let (b, _outcome) = src.read_vec(off, 128);
            places.push(off);
            facts.push(EntryFacts::from_bytes(&b));
            i += 1;
        }
        assert(entry::fact_models(facts@) =~= self.all_facts(dev));
        (places, facts)
    }

    /// Read every entry. Each slot gets a row, because an empty slot is not
    /// necessarily a blank one.
    pub fn expand<S: BlockSource>(&self, src: &S) -> (r: Vec<GptEntry>)
        requires
            self.count <= u32::MAX,
        ensures
            entry_models(r@) == self.expanded(src.device()),
    {
        let ghost dev = src.device();
        let (places, facts): (Vec<u64>, Vec<EntryFacts>) = self.read_facts(src);
        let mut overlaps: Vec<Vec<Finding>> = Vec::new();
        let n: usize = facts.len();
        let mut i: usize = 0;
        while i < n
            invariant
                i <= n,
                n == facts@.len(),
                entry::fact_models(facts@) == self.all_facts(dev),
                overlaps@.len() == i,
                forall|j: int|
                    0 <= j < i ==> (#[trigger] overlaps@[j])@ == entry::overlap_findings(
                        self.all_facts(dev),
                        j,
                    ),
            decreases n - i,
        {
            overlaps.push(mark_overlaps(&facts, i));
            i += 1;
        }
        let mut out: Vec<GptEntry> = Vec::new();
        let mut k: usize = 0;
        while k < n
            invariant
                k <= n,
                dev == src.device(),
                n == self.reachable(0),
                n <= u32::MAX,
                places@.len() == n,
                overlaps@.len() == n,
                forall|j: int| 0 <= j < n ==> #[trigger] places@[j] == self.place(j),
                forall|j: int|
                    0 <= j < n ==> (#[trigger] overlaps@[j])@ == entry::overlap_findings(
                        self.all_facts(dev),
                        j,
                    ),
                entry_models(out@) =~= self.expanded(dev).take(k as int),
            decreases n - k,
        {
            let ghost before = entry_models(out@);
            let off: u64 = places[k];
            let e = self.read_one(src, off, k as u32, &overlaps[k]);
            proof {
                assert(self.all_facts(dev)[k as int] == entry::facts_of(dev.read(off, 128).data));
                assert(e@.findings =~= self.entry_of(dev, k as int).findings);
                assert(e@ == self.entry_of(dev, k as int));
            }
            out.push(e);
            assert(entry_models(out@) =~= before.push(e@));
            k += 1;
        }
        assert(entry_models(out@) =~= self.expanded(dev));
        out
    }

    fn read_one<S: BlockSource>(&self, src: &S, off: u64, i: u32, overlaps: &Vec<Finding>) -> (r:
        GptEntry)
        ensures
            ({
                let dev = src.device();
                let facts = entry::facts_of(dev.read(off, 128).data);
                &&& r@.span == Span::of_bytes(
                    off,
                    if self.entry_size > 128 {
                        self.entry_size
                    } else {
                        128
                    },
                )
                &&& r@.record == record_of(
                    dev,
                    "GPT partition entry"@,
                    128,
                    desc::gpt_entry_fields(),
                    off,
                    off,
                )
                &&& r@.facts == facts
                &&& r@.label == entry::entry_label(i as int, facts)
                &&& r@.tail == tail_of(dev, off, self.entry_size)
                &&& r@.findings == entry::entry_findings(
                    facts,
                    self.first_usable,
                    self.last_usable,
                    self.device_lbas,
                ) + overlaps@
            }),
    {
        let layout = desc::gpt_entry();
        let record = read_desc_at(src, &layout, off, ReadCtx::at(off));
        let (b, _outcome) = src.read_vec(off, 128);
        let facts = EntryFacts::from_bytes(&b);
        let label: String = label_for_entry(i, &facts);
        let mut findings: Vec<Finding> = annotate_entry(
            &facts,
            self.first_usable,
            self.last_usable,
            self.device_lbas,
        );
        let ghost start = findings@;
        let mut j: usize = 0;
        while j < overlaps.len()
            invariant
                j <= overlaps@.len(),
                findings@ =~= start + overlaps@.take(j as int),
            decreases overlaps@.len() - j,
        {
            findings.push(overlaps[j]);
            j += 1;
        }
        assert(overlaps@.take(j as int) =~= overlaps@);
        let tail: Option<VendorTail> = if self.entry_size > 128 {
            let tail_at: u64 = off.saturating_add(128);
            let len: u64 = self.entry_size - 128;
            let bytes: Vec<u8> = match read_exact_opt(src, tail_at, len) {
                Some(v) => v,
                None => Vec::new(),
            };
            let t = VendorTail { span: Span::bytes(tail_at, len), bytes };
            assert(Some(t@) == tail_of(src.device(), off, self.entry_size));
            Some(t)
        } else {
            None
        };
        let size: u64 = if self.entry_size > 128 { self.entry_size } else { 128 };
        GptEntry { span: Span::bytes(off, size), record, facts, label, tail, findings }
    }
}

impl GptEntryModel {
    /// How serious the attributes are: a reserved bit that is set is worth a warning.
    pub open spec fn attribute_severity(self) -> Status {
        if attributes::stray(self.facts.attributes) {
            Status::Warn
        } else {
            Status::Clean
        }
    }

    /// How serious the worst thing in the entry is.
    pub open spec fn severity(self) -> Status {
        self.record.severity().worse(finding::worst(self.findings)).worse(
            self.attribute_severity(),
        ).worse(
            if self.tail matches Some(t) && t.bytes.len() == 0 {
                Status::Unreadable
            } else {
                Status::Clean
            },
        )
    }
}

impl GptEntry {
    /// How serious the attributes are.
    pub fn attribute_status(&self) -> (r: Status)
        ensures
            r == self@.attribute_severity(),
    {
        if attributes::has_stray(self.facts.attributes) {
            Status::Warn
        } else {
            Status::Clean
        }
    }

    /// How serious the worst thing in the entry is.
    pub fn status(&self) -> (r: Status)
        ensures
            r == self@.severity(),
    {
        let tail = match &self.tail {
            Some(t) => if t.bytes.len() == 0 {
                Status::Unreadable
            } else {
                Status::Clean
            },
            None => Status::Clean,
        };
        self.record.status().merge(worst_of(&self.findings)).merge(self.attribute_status()).merge(
            tail,
        )
    }
}

// --------------------------------------------------------------- the array's row

/// The array's row in a table: where it is, or why it is not shown.
#[derive(Clone, Copy, Debug, PartialEq, Eq, Structural)]
pub struct ArrayRow {
    pub span: Option<Span>,
    pub array: Option<EntryArray>,
    pub finding: Option<Finding>,
}

/// The row of a planned array.
pub open spec fn row_of(p: ArrayPlanModel, f: HeaderFacts, device_lbas: u64) -> ArrayRow {
    match p.at {
        None => ArrayRow { span: None, array: None, finding: Some(Finding::ArrayUnlocated) },
        Some(at) => ArrayRow {
            span: Some(Span::of_bytes(at, common::saturated(p.count * p.entry_size))),
            array: Some(
                EntryArray {
                    at,
                    count: p.count,
                    entry_size: p.entry_size,
                    first_usable: f.first_usable,
                    last_usable: f.last_usable,
                    device_lbas,
                },
            ),
            finding: None,
        },
    }
}

/// Lay out the row of a planned array.
pub fn array_row(plan: &ArrayPlan, f: &HeaderFacts, device_lbas: u64) -> (r: ArrayRow)
    ensures
        r == row_of(plan@, *f, device_lbas),
{
    match plan.at {
        None => ArrayRow { span: None, array: None, finding: Some(Finding::ArrayUnlocated) },
        Some(at) => ArrayRow {
            span: Some(Span::bytes(at, saturating_mul(plan.count, plan.entry_size))),
            array: Some(
                EntryArray {
                    at,
                    count: plan.count,
                    entry_size: plan.entry_size,
                    first_usable: f.first_usable,
                    last_usable: f.last_usable,
                    device_lbas,
                },
            ),
            finding: None,
        },
    }
}

} // verus!
