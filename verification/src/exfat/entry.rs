//! Directory entries: single records, and the sets that make up a file.
//!
//! Clearing bit 7 of the type byte is the entire delete operation, so a deleted
//! record keeps its name, its size and its cluster. Both kinds parse the same way.

use crate::checksum::ChecksumAlgo;
use crate::common;
use crate::common::{u32_or_zero, u64_or_zero};
use crate::desc::{read_struct, struct_of, DescModel, ReadCtx, Record, RecordModel, StructDesc};
use crate::exfat::desc;
use crate::exfat::finding;
use crate::exfat::finding::{note, Finding};
use crate::exfat::types;
use crate::source::ReadOutcome;
use crate::text;
use crate::text::Text;
use vstd::prelude::*;

verus! {

// ---------------------------------------------------------------- checksums

/// The two bytes of an entry set that hold its checksum.
pub open spec fn set_checksum_hole() -> Seq<(u64, u64)> {
    seq![(2u64, 2u64)]
}

/// The checksum over a whole entry set.
pub open spec fn set_sum(set: Seq<u8>) -> u64 {
    ChecksumAlgo::ExfatEntrySet.value(set, set_checksum_hole())
}

/// The set with the `InUse` bit of every record put back.
pub open spec fn with_in_use(set: Seq<u8>) -> Seq<u8> {
    Seq::new(set.len(), |i: int| if i % 32 == 0 { types::restored(set[i]) } else { set[i] })
}

/// The checksum a set stores.
pub open spec fn stored_sum(set: Seq<u8>) -> Option<u64> {
    if set.len() >= 4 {
        Some(common::le16(set, 2) as u64)
    } else {
        None
    }
}

fn restore_in_use(set: &[u8]) -> (r: Vec<u8>)
    ensures
        r@ == with_in_use(set@),
{
    let mut out: Vec<u8> = Vec::new();
    let mut i: usize = 0;
    while i < set.len()
        invariant
            i <= set@.len(),
            out@ =~= with_in_use(set@).take(i as int),
        decreases set@.len() - i,
    {
        out.push(if i % 32 == 0 { types::undeleted(set[i]) } else { set[i] });
        i += 1;
    }
    assert(out@ =~= with_in_use(set@));
    out
}

/// `(stored, computed, computed with InUse restored)` for an entry set.
///
/// The third value is what makes a deleted record readable with confidence: if it
/// matches the stored checksum, the only bytes that changed since the record was
/// live are the `InUse` bits.
pub fn set_checksum(set: &[u8], try_restore: bool) -> (r: (Option<u64>, u64, Option<u64>))
    ensures
        r.0 == stored_sum(set@),
        r.1 == set_sum(set@),
        r.2 == if try_restore { Some(set_sum(with_in_use(set@))) } else { None },
{
    let hole: [(u64, u64); 1] = [(2, 2)];
    assert(hole@ =~= set_checksum_hole());
    let stored = match common::u16le(set, 2) {
        Some(v) => Some(v as u64),
        None => None,
    };
    let computed: u64 = ChecksumAlgo::ExfatEntrySet.compute(set, &hole);
    let restored = if try_restore {
        let copy: Vec<u8> = restore_in_use(set);
        Some(ChecksumAlgo::ExfatEntrySet.compute(&copy, &hole))
    } else {
        None
    };
    (stored, computed, restored)
}

/// How a stored set checksum compares with the bytes it covers.
#[derive(Clone, Copy, Debug, PartialEq, Eq, Structural)]
pub struct SetChecksum {
    pub stored: Option<u64>,
    /// The value it is held against: as stored for a live record, with the `InUse`
    /// bits put back for a deleted one.
    pub effective: u64,
    pub matches: bool,
    pub finding: Option<Finding>,
}

/// The verdict on a stored checksum. A mismatch on a live set is a fault; on a
/// deleted one it only says that something else was overwritten too.
pub open spec fn judged(
    stored: Option<u64>,
    computed: u64,
    restored: Option<u64>,
    live: bool,
) -> SetChecksum {
    let effective = if live {
        computed
    } else {
        match restored {
            Some(v) => v,
            None => computed,
        }
    };
    let shown = match stored {
        Some(v) => v,
        None => 0,
    };
    SetChecksum {
        stored,
        effective,
        matches: stored == Some(effective),
        finding: if stored == Some(effective) {
            None
        } else if live {
            Some(Finding::SetChecksumMismatch { stored: shown, computed: effective })
        } else {
            Some(Finding::DeletedSetChecksum { stored: shown, computed: effective })
        },
    }
}

/// Hold a stored checksum against what was computed.
pub fn judge_checksum(
    stored: Option<u64>,
    computed: u64,
    restored: Option<u64>,
    live: bool,
) -> (r: SetChecksum)
    ensures
        r == judged(stored, computed, restored, live),
{
    let effective: u64 = if live {
        computed
    } else {
        match restored {
            Some(v) => v,
            None => computed,
        }
    };
    let (matches, shown): (bool, u64) = match stored {
        Some(v) => (v == effective, v),
        None => (false, 0),
    };
    let finding = if matches {
        None
    } else if live {
        Some(Finding::SetChecksumMismatch { stored: shown, computed: effective })
    } else {
        Some(Finding::DeletedSetChecksum { stored: shown, computed: effective })
    };
    SetChecksum { stored, effective, matches, finding }
}

/// A deleted set whose records lost nothing but their `InUse` bits still matches
/// its checksum once those bits are put back.
pub proof fn lemma_deletion_is_reversible(live: Seq<u8>, deleted: Seq<u8>)
    requires
        live.len() == deleted.len(),
        live.len() >= 4,
        forall|i: int|
            0 <= i < live.len() ==> #[trigger] deleted[i] == if i % 32 == 0 {
                (live[i] - 0x80) as u8
            } else {
                live[i]
            },
        forall|i: int| 0 <= i < live.len() && i % 32 == 0 ==> types::in_use(#[trigger] live[i]),
    ensures
        with_in_use(deleted) == live,
        set_sum(with_in_use(deleted)) == set_sum(live),
        stored_sum(deleted) == stored_sum(live),
{
    assert(with_in_use(deleted) =~= live);
}

// --------------------------------------------------------------- name hashes

/// Upper case of an ASCII code unit.
pub open spec fn ascii_upper(u: u16) -> u16 {
    if 0x61 <= u <= 0x7A {
        (u - 0x20) as u16
    } else {
        u
    }
}

/// Every unit is ASCII.
pub open spec fn all_ascii(units: Seq<u16>) -> bool {
    forall|i: int| 0 <= i < units.len() ==> #[trigger] units[i] <= 0x7F
}

/// The up-cased units as little-endian bytes.
pub open spec fn upper_bytes(units: Seq<u16>) -> Seq<u8> {
    Seq::new(
        2 * units.len(),
        |i: int| if i % 2 == 0 { ascii_upper(units[i / 2]) as u8 } else { 0 },
    )
}

/// The name hash of an ASCII name. Anything else needs the volume's own up-case
/// table, and is declined rather than guessed.
pub open spec fn ascii_hash(units: Seq<u16>) -> Option<u16> {
    if all_ascii(units) {
        Some(ChecksumAlgo::ExfatEntrySet.value(upper_bytes(units), Seq::empty()) as u16)
    } else {
        None
    }
}

/// Name hash over an ASCII name, `None` when it has code units outside ASCII.
pub fn name_hash_ascii(units: &[u16]) -> (r: Option<u16>)
    ensures
        r == ascii_hash(units@),
{
    let mut bytes: Vec<u8> = Vec::new();
    let mut i: usize = 0;
    while i < units.len()
        invariant
            i <= units@.len(),
            forall|j: int| 0 <= j < i ==> #[trigger] units@[j] <= 0x7F,
            bytes@ =~= upper_bytes(units@.take(i as int)),
        decreases units@.len() - i,
    {
        let u: u16 = units[i];
        if u > 0x7F {
            return None;
        }
        let up: u16 = if 0x61 <= u && u <= 0x7A { u - 0x20 } else { u };
        bytes.push(up as u8);
        bytes.push(0);
        i += 1;
    }
    assert(units@.take(i as int) =~= units@);
    let none: [(u64, u64); 0] = [];
    assert(none@ =~= Seq::empty());
    Some(ChecksumAlgo::ExfatEntrySet.compute(&bytes, &none) as u16)
}

/// Up-casing is part of the hash: two spellings that differ in case alone hash alike.
pub proof fn lemma_hash_ignores_case(a: Seq<u16>, b: Seq<u16>)
    requires
        all_ascii(a),
        all_ascii(b),
        a.len() == b.len(),
        forall|i: int| 0 <= i < a.len() ==> ascii_upper(#[trigger] a[i]) == ascii_upper(b[i]),
    ensures
        ascii_hash(a) == ascii_hash(b),
{
    assert(upper_bytes(a) =~= upper_bytes(b));
}

// ------------------------------------------------------------------- fields

/// The layout of a record of type `t`, deleted or not.
pub open spec fn layout_of(t: u8) -> DescModel {
    let kind = types::restored(t);
    if kind == types::ALLOCATION_BITMAP {
        DescModel {
            name: "exFAT allocation bitmap entry"@,
            size: 32,
            fields: desc::allocation_bitmap_fields(),
        }
    } else if kind == types::UPCASE_TABLE {
        DescModel {
            name: "exFAT up-case table entry"@,
            size: 32,
            fields: desc::upcase_table_fields(),
        }
    } else if kind == types::VOLUME_LABEL {
        DescModel {
            name: "exFAT volume label entry"@,
            size: 32,
            fields: desc::volume_label_fields(),
        }
    } else if kind == types::VOLUME_GUID {
        DescModel {
            name: "exFAT volume GUID entry"@,
            size: 32,
            fields: desc::volume_guid_fields(),
        }
    } else if kind == types::STREAM_EXTENSION {
        DescModel {
            name: "exFAT stream extension entry"@,
            size: 32,
            fields: desc::stream_extension_fields(),
        }
    } else if kind == types::FILE_NAME {
        DescModel {
            name: "exFAT file name entry"@,
            size: 32,
            fields: desc::file_name_fields(),
        }
    } else {
        generic_layout()
    }
}

/// The layout of a record of which only the type byte is known.
pub open spec fn generic_layout() -> DescModel {
    DescModel { name: "exFAT directory entry"@, size: 32, fields: desc::generic_entry_fields() }
}

/// The layout of a record of type `t`, deleted or not.
pub fn layout_for(t: u8) -> (r: StructDesc)
    ensures
        r@ == layout_of(t),
{
    let kind: u8 = types::undeleted(t);
    if kind == types::ALLOCATION_BITMAP {
        desc::allocation_bitmap()
    } else if kind == types::UPCASE_TABLE {
        desc::upcase_table()
    } else if kind == types::VOLUME_LABEL {
        desc::volume_label()
    } else if kind == types::VOLUME_GUID {
        desc::volume_guid()
    } else if kind == types::STREAM_EXTENSION {
        desc::stream_extension()
    } else if kind == types::FILE_NAME {
        desc::file_name()
    } else {
        desc::generic_entry()
    }
}

/// The record `b` at `at` of the volume at `base`, read with a layout.
pub open spec fn record_with(layout: DescModel, b: Seq<u8>, at: u64, base: u64) -> RecordModel {
    struct_of(layout.name, layout.fields, b, false, at, base)
}

/// Read the record `b` at `at` of the volume at `base` with a layout.
pub fn read_record(layout: &StructDesc, b: &[u8], at: u64, base: u64) -> (r: Record)
    ensures
        r@ == record_with(layout@, b@, at, base),
{
    read_struct(layout, b, ReadOutcome::Full, ReadCtx { base: at, region_base: base })
}

// ------------------------------------------------------------ single records

/// One record on its own.
#[derive(Debug)]
pub struct SingleEntry {
    pub at: u64,
    pub type_byte: u8,
    pub label: String,
    pub record: Record,
    /// What a file name record spells.
    pub spells: String,
    pub first_cluster: u32,
    pub data_length: u64,
    /// The word where an up-case table entry keeps its checksum.
    pub table_checksum: u32,
    pub checksum: Option<SetChecksum>,
    pub findings: Vec<Finding>,
}

/// What a [`SingleEntry`] says.
pub struct SingleModel {
    pub at: u64,
    pub type_byte: u8,
    pub label: Seq<char>,
    pub record: RecordModel,
    pub spells: Seq<char>,
    pub first_cluster: u32,
    pub data_length: u64,
    pub table_checksum: u32,
    pub checksum: Option<SetChecksum>,
    pub findings: Seq<Finding>,
}

impl View for SingleEntry {
    type V = SingleModel;

    open spec fn view(&self) -> SingleModel {
        SingleModel {
            at: self.at,
            type_byte: self.type_byte,
            label: self.label@,
            record: self.record@,
            spells: self.spells@,
            first_cluster: self.first_cluster,
            data_length: self.data_length,
            table_checksum: self.table_checksum,
            checksum: self.checksum,
            findings: self.findings@,
        }
    }
}

/// Every byte of `s` from `from` on is zero.
pub open spec fn zero_from(s: Seq<u8>, from: int) -> bool {
    forall|i: int| from <= i < s.len() ==> #[trigger] s[i] == 0
}

/// True when every byte from `from` on is zero.
pub fn is_zero_from(s: &[u8], from: usize) -> (r: bool)
    ensures
        r == zero_from(s@, from as int),
{
    let mut i: usize = from;
    while i < s.len()
        invariant
            from <= i,
            forall|j: int| from <= j < i && j < s@.len() ==> #[trigger] s@[j] == 0,
        decreases s@.len() - i,
    {
        if s[i] != 0 {
            return false;
        }
        i += 1;
    }
    true
}

/// The text of a volume label record, as far as its character count reaches.
pub open spec fn label_text(b: Seq<u8>) -> Seq<char> {
    text::first_chars(text::utf16_text(text::until_nul(text::units_in(b, 2, 11))), b[1] as int)
}

/// The row label of a record on its own.
pub open spec fn single_label(b: Seq<u8>) -> Seq<char> {
    let kind = types::restored(b[0]);
    let named = (if types::in_use(b[0]) {
        ""@
    } else {
        "deleted "@
    }) + types::entry_type_name(kind)@ + " entry"@;
    if kind == types::VOLUME_LABEL {
        named + " \""@ + label_text(b) + "\""@
    } else {
        named
    }
}

/// What is worth saying about a record on its own.
pub open spec fn single_findings(b: Seq<u8>) -> Seq<Finding> {
    let t = b[0];
    finding::when(
        !types::in_use(t),
        Finding::EntryDeleted { type_byte: t, live: types::restored(t) },
    ) + finding::when(!types::in_use(t) && zero_from(b, 1), Finding::NothingSurvives)
        + finding::when((t / 64) % 2 == 1, Finding::LoneSecondary)
}

/// What a file name record spells.
pub open spec fn spelled(b: Seq<u8>) -> Seq<char> {
    if types::restored(b[0]) == types::FILE_NAME {
        text::utf16_text(text::until_nul(text::units_in(b, 2, 15)))
    } else {
        ""@
    }
}

/// The record `b` at `at` of the volume at `base`, read on its own.
pub open spec fn single_of(b: Seq<u8>, at: u64, base: u64) -> SingleModel {
    let live = types::in_use(b[0]);
    SingleModel {
        at,
        type_byte: b[0],
        label: single_label(b),
        record: record_with(layout_of(b[0]), b, at, base),
        spells: spelled(b),
        first_cluster: common::le32(b, 0x14),
        data_length: common::le64(b, 0x18),
        table_checksum: common::le32(b, 4),
        checksum: if types::restored(b[0]) == types::VOLUME_GUID && (live || !zero_from(b, 1)) {
            Some(
                judged(
                    stored_sum(b),
                    set_sum(b),
                    if live { None } else { Some(set_sum(with_in_use(b))) },
                    live,
                ),
            )
        } else {
            None
        },
        findings: single_findings(b),
    }
}

/// Read one 32-byte record on its own, deleted or not.
pub fn single_entry(b: &[u8], at: u64, base: u64) -> (r: SingleEntry)
    requires
        b@.len() == 32,
    ensures
        r@ == single_of(b@, at, base),
{
    let t: u8 = b[0];
    let live: bool = types::is_in_use(t);
    let kind: u8 = types::undeleted(t);
    let blank: bool = is_zero_from(b, 1);

    let mut label = Text::of(if live { "" } else { "deleted " }).lit(
        types::entry_type_label(kind),
    ).lit(" entry");
    if kind == types::VOLUME_LABEL {
        let units: Vec<u16> = text::units_at(b, 2, 11);
        let whole: String = text::decode_until_nul(&units);
        let shown: String = text::truncate_chars(whole.as_str(), b[1] as usize);
        label = label.lit(" \"").lit(shown.as_str()).lit("\"");
    }
    let checksum = if kind == types::VOLUME_GUID && (live || !blank) {
        let (stored, computed, restored) = set_checksum(b, !live);
        Some(judge_checksum(stored, computed, restored, live))
    } else {
        None
    };
    let mut findings: Vec<Finding> = Vec::new();
    note(&mut findings, !live, Finding::EntryDeleted { type_byte: t, live: kind });
    note(&mut findings, !live && blank, Finding::NothingSurvives);
    note(&mut findings, types::is_secondary(t), Finding::LoneSecondary);
    assert(findings@ =~= single_findings(b@));
    let label = label.done();
    assert(label@ =~= single_label(b@));
    let spells: String = if kind == types::FILE_NAME {
        let units: Vec<u16> = text::units_at(b, 2, 15);
        text::decode_until_nul(&units)
    } else {
        Text::of("").done()
    };
    let layout = layout_for(t);
    SingleEntry {
        at,
        type_byte: t,
        label,
        record: read_record(&layout, b, at, base),
        spells,
        first_cluster: u32_or_zero(b, 0x14),
        data_length: u64_or_zero(b, 0x18),
        table_checksum: u32_or_zero(b, 4),
        checksum,
        findings,
    }
}

} // verus!
