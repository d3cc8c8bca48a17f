//! One partition entry.
//!
//! Unused entries are evidence. A zero type GUID means the slot is free and says
//! nothing about the other 112 bytes, and most tools leave them alone.

use crate::common;
use crate::common::u64_or_zero;
use crate::gpt::finding;
use crate::gpt::finding::{note, Finding};
use crate::gpt::guids;
use crate::text;
use crate::text::Text;
use vstd::prelude::*;

verus! {

// ------------------------------------------------------------------------ facts

/// What one entry says, decoded once.
#[derive(Debug)]
pub struct EntryFacts {
    pub type_guid: [u8; 16],
    pub unique_guid: [u8; 16],
    pub first_lba: u64,
    pub last_lba: u64,
    pub attributes: u64,
    pub name: String,
    /// Non-zero bytes after the name's terminating NUL: a longer name that was
    /// overwritten by a shorter one, still legible.
    pub name_tail_dirty: bool,
}

/// What an [`EntryFacts`] holds.
pub struct EntryFactsModel {
    pub type_guid: Seq<u8>,
    pub unique_guid: Seq<u8>,
    pub first_lba: u64,
    pub last_lba: u64,
    pub attributes: u64,
    pub name: Seq<char>,
    pub name_tail_dirty: bool,
}

impl View for EntryFacts {
    type V = EntryFactsModel;

    open spec fn view(&self) -> EntryFactsModel {
        EntryFactsModel {
            type_guid: self.type_guid@,
            unique_guid: self.unique_guid@,
            first_lba: self.first_lba,
            last_lba: self.last_lba,
            attributes: self.attributes,
            name: self.name@,
            name_tail_dirty: self.name_tail_dirty,
        }
    }
}

/// The GUID at `off`, or all zero where it was not read.
pub open spec fn guid_at(b: Seq<u8>, off: int) -> Seq<u8> {
    Seq::new(16, |i: int| if common::holds(b, off, 16) { b[off + i] } else { 0u8 })
}

/// The 36 code units of the name, or none where it was not read in full.
pub open spec fn name_units(b: Seq<u8>) -> Seq<u16> {
    if common::holds(b, 0x38, 72) {
        text::units_in(b, 0x38, 36)
    } else {
        Seq::empty()
    }
}

/// Something after the first NUL code unit is not zero.
pub open spec fn dirty_tail(units: Seq<u16>) -> bool {
    exists|i: int| text::nul_index(units) < i < units.len() && #[trigger] units[i] != 0
}

/// What an entry's bytes say. What was not read counts as zero.
pub open spec fn facts_of(b: Seq<u8>) -> EntryFactsModel {
    EntryFactsModel {
        type_guid: guid_at(b, 0x00),
        unique_guid: guid_at(b, 0x10),
        first_lba: common::le64_or_zero(b, 0x20),
        last_lba: common::le64_or_zero(b, 0x28),
        attributes: common::le64_or_zero(b, 0x30),
        name: text::utf16_text(text::until_nul(name_units(b))),
        name_tail_dirty: dirty_tail(name_units(b)),
    }
}

fn read_guid(b: &[u8], off: usize) -> (r: [u8; 16])
    requires
        off + 16 <= usize::MAX,
    ensures
        r@ == guid_at(b@, off as int),
{
    if b.len() < off + 16 {
        let r: [u8; 16] = [0u8; 16];
        assert(r@ =~= guid_at(b@, off as int));
        return r;
    }
    let r: [u8; 16] = [
        b[off],
        b[off + 1],
        b[off + 2],
        b[off + 3],
        b[off + 4],
        b[off + 5],
        b[off + 6],
        b[off + 7],
        b[off + 8],
        b[off + 9],
        b[off + 10],
        b[off + 11],
        b[off + 12],
        b[off + 13],
        b[off + 14],
        b[off + 15],
    ];
    assert(r@ =~= guid_at(b@, off as int));
    r
}

/// True when anything after the name's first NUL code unit is non-zero.
pub fn name_tail_is_dirty(units: &[u16]) -> (r: bool)
    ensures
        r == dirty_tail(units@),
{
    let nul: usize = text::nul_at(units);
    if nul >= units.len() {
        return false;
    }
    let mut i: usize = nul + 1;
    while i < units.len()
        invariant
            nul == text::nul_index(units@),
            nul < i <= units@.len(),
            forall|j: int| nul < j < i ==> #[trigger] units@[j] == 0,
        decreases units@.len() - i,
    {
        if units[i] != 0 {
            assert(units@[i as int] != 0);
            return true;
        }
        i += 1;
    }
    false
}

impl EntryFacts {
    /// Decode an entry.
    pub fn from_bytes(b: &[u8]) -> (r: EntryFacts)
        ensures
            r@ == facts_of(b@),
    {
        let units: Vec<u16> = if b.len() >= 0x38 + 72 {
            text::units_at(b, 0x38, 36)
        } else {
            Vec::new()
        };
        assert(units@ =~= name_units(b@));
        EntryFacts {
            type_guid: read_guid(b, 0x00),
            unique_guid: read_guid(b, 0x10),
            first_lba: u64_or_zero(b, 0x20),
            last_lba: u64_or_zero(b, 0x28),
            attributes: u64_or_zero(b, 0x30),
            name: text::decode_until_nul(&units),
            name_tail_dirty: name_tail_is_dirty(&units),
        }
    }

    /// The slot is declared free.
    pub fn is_unused(&self) -> (r: bool)
        ensures
            r == self@.unused(),
    {
        guids::is_unused(&self.type_guid)
    }

    /// Everything a supposedly free slot still holds, one bit each: the unique GUID,
    /// the sector range, the name or what an older name left behind it, and the
    /// attributes. Zero means genuinely blank.
    pub fn leftovers(&self) -> (r: u8)
        ensures
            r == self@.survivors(),
            r == 0 <==> self@.blank(),
    {
        let a: u8 = if guids::is_unused(&self.unique_guid) { 0 } else { 1 };
        let b: u8 = if self.first_lba != 0 || self.last_lba != 0 { 2 } else { 0 };
        let c: u8 = if text::char_count(&self.name) > 0 || self.name_tail_dirty { 4 } else { 0 };
        let d: u8 = if self.attributes != 0 { 8 } else { 0 };
        a + b + c + d
    }
}

impl EntryFactsModel {
    /// The slot is declared free.
    pub open spec fn unused(self) -> bool {
        guids::unused(self.type_guid)
    }

    /// Nothing but the type GUID is set.
    pub open spec fn blank(self) -> bool {
        &&& guids::unused(self.unique_guid)
        &&& self.first_lba == 0
        &&& self.last_lba == 0
        &&& self.attributes == 0
        &&& self.name.len() == 0
        &&& !self.name_tail_dirty
    }

    /// Everything a supposedly free slot still holds, one bit each.
    pub open spec fn survivors(self) -> int {
        (if guids::unused(self.unique_guid) {
            0int
        } else {
            1
        }) + (if self.first_lba != 0 || self.last_lba != 0 {
            2int
        } else {
            0
        }) + (if self.name.len() > 0 || self.name_tail_dirty {
            4int
        } else {
            0
        }) + (if self.attributes != 0 {
            8int
        } else {
            0
        })
    }

    /// The entry claims sectors.
    pub open spec fn live(self) -> bool {
        !self.unused() && self.first_lba <= self.last_lba
    }
}

/// What a free slot still holds, in words.
pub open spec fn survivors_name(left: u8) -> &'static str {
    match left {
        1 => "the unique GUID",
        2 => "the LBA range",
        3 => "the unique GUID, the LBA range",
        4 => "the name",
        5 => "the unique GUID, the name",
        6 => "the LBA range, the name",
        7 => "the unique GUID, the LBA range, the name",
        8 => "the attributes",
        9 => "the unique GUID, the attributes",
        10 => "the LBA range, the attributes",
        11 => "the unique GUID, the LBA range, the attributes",
        12 => "the name, the attributes",
        13 => "the unique GUID, the name, the attributes",
        14 => "the LBA range, the name, the attributes",
        15 => "the unique GUID, the LBA range, the name, the attributes",
        _ => "",
    }
}

/// What a free slot still holds, in words.
pub fn survivors_label(left: u8) -> (r: &'static str)
    ensures
        r@ == survivors_name(left)@,
{
    match left {
        1 => "the unique GUID",
        2 => "the LBA range",
        3 => "the unique GUID, the LBA range",
        4 => "the name",
        5 => "the unique GUID, the name",
        6 => "the LBA range, the name",
        7 => "the unique GUID, the LBA range, the name",
        8 => "the attributes",
        9 => "the unique GUID, the attributes",
        10 => "the LBA range, the attributes",
        11 => "the unique GUID, the LBA range, the attributes",
        12 => "the name, the attributes",
        13 => "the unique GUID, the name, the attributes",
        14 => "the LBA range, the name, the attributes",
        15 => "the unique GUID, the LBA range, the name, the attributes",
        _ => "",
    }
}

// ----------------------------------------------------------------------- labels

/// What entry `i` of the array is called.
pub open spec fn entry_label(i: int, f: EntryFactsModel) -> Seq<char> {
    let kind = match guids::type_text(f.type_guid) {
        Some(s) => s,
        None => "unknown type"@,
    };
    if f.unused() {
        "["@ + text::dec(i) + "] --"@
    } else if f.name.len() == 0 {
        "["@ + text::dec(i) + "] "@ + kind
    } else {
        "["@ + text::dec(i) + "] "@ + kind + " \""@ + f.name + "\""@
    }
}

pub fn label_for_entry(i: u32, f: &EntryFacts) -> (r: String)
    ensures
        r@ == entry_label(i as int, f@),
{
    if f.is_unused() {
        return Text::of("[").dec(i as u64).lit("] --").done();
    }
    let kind: &'static str = match guids::type_label(&f.type_guid) {
        Some(s) => s,
        None => "unknown type",
    };
    if text::char_count(&f.name) == 0 {
        Text::of("[").dec(i as u64).lit("] ").lit(kind).done()
    } else {
        Text::of("[").dec(i as u64).lit("] ").lit(kind).lit(" \"").lit(f.name.as_str()).lit(
            "\"",
        ).done()
    }
}

// ------------------------------------------------------------- one entry's checks

/// Everything one entry can be wrong about, or interesting about, on its own.
pub open spec fn entry_findings(
    f: EntryFactsModel,
    first_usable: u64,
    last_usable: u64,
    sectors: u64,
) -> Seq<Finding> {
    if f.unused() {
        finding::when(f.survivors() != 0, Finding::Survivors { left: f.survivors() as u8 })
    } else {
        Seq::<Finding>::empty() + finding::when(
            f.first_lba > f.last_lba,
            Finding::NoSectors { first: f.first_lba, last: f.last_lba },
        ) + finding::when(
            first_usable <= last_usable && (f.first_lba < first_usable || f.last_lba
                > last_usable),
            Finding::OutsideUsable {
                first: f.first_lba,
                last: f.last_lba,
                first_usable,
                last_usable,
            },
        ) + finding::when(
            sectors > 0 && f.last_lba >= sectors,
            Finding::PastDevice { last: f.last_lba, sectors },
        ) + finding::when(guids::unused(f.unique_guid), Finding::UniqueGuidZero) + finding::when(
            f.name_tail_dirty,
            Finding::NameTail,
        )
    }
}

/// Check one entry on its own.
pub fn annotate_entry(f: &EntryFacts, first_usable: u64, last_usable: u64, sectors: u64) -> (out:
    Vec<Finding>)
    ensures
        out@ == entry_findings(f@, first_usable, last_usable, sectors),
{
    let mut out: Vec<Finding> = Vec::new();
    if f.is_unused() {
        let left: u8 = f.leftovers();
        note(&mut out, left != 0, Finding::Survivors { left });
        assert(out@ =~= entry_findings(f@, first_usable, last_usable, sectors));
        return out;
    }
    note(
        &mut out,
        f.first_lba > f.last_lba,
        Finding::NoSectors { first: f.first_lba, last: f.last_lba },
    );
    note(
        &mut out,
        first_usable <= last_usable && (f.first_lba < first_usable || f.last_lba > last_usable),
        Finding::OutsideUsable { first: f.first_lba, last: f.last_lba, first_usable, last_usable },
    );
    note(
        &mut out,
        sectors > 0 && f.last_lba >= sectors,
        Finding::PastDevice { last: f.last_lba, sectors },
    );
    note(&mut out, guids::is_unused(&f.unique_guid), Finding::UniqueGuidZero);
    note(&mut out, f.name_tail_dirty, Finding::NameTail);
    out
}

// --------------------------------------------------------------------- overlaps

/// How many overlapping entries are named on one entry before the rest are counted
/// instead.
pub const MAX_OVERLAP_DIAGS: u64 = 8;

/// Two entries claim a sector in common.
pub open spec fn overlap(a: EntryFactsModel, b: EntryFactsModel) -> bool {
    a.live() && b.live() && a.first_lba <= b.last_lba && b.first_lba <= a.last_lba
}

/// How many of the first `n` entries other than `x` overlap entry `x`.
pub open spec fn partners(facts: Seq<EntryFactsModel>, x: int, n: nat) -> nat
    decreases n,
{
    if n == 0 {
        0
    } else {
        partners(facts, x, (n - 1) as nat) + if n - 1 != x && overlap(facts[x], facts[n - 1]) {
            1nat
        } else {
            0nat
        }
    }
}

/// The first overlapping entries among the first `n`, by name.
pub open spec fn named_partners(facts: Seq<EntryFactsModel>, x: int, n: nat) -> Seq<Finding>
    decreases n,
{
    if n == 0 {
        Seq::empty()
    } else {
        let y = facts[n - 1];
        named_partners(facts, x, (n - 1) as nat) + finding::when(
            n - 1 != x && overlap(facts[x], y) && partners(facts, x, (n - 1) as nat)
                < MAX_OVERLAP_DIAGS,
            Finding::Overlap {
                other: (n - 1) as u64,
                first: facts[x].first_lba,
                last: facts[x].last_lba,
                other_first: y.first_lba,
                other_last: y.last_lba,
            },
        )
    }
}

/// What the overlaps say about entry `x`: the first eight by name, the rest as a
/// number.
pub open spec fn overlap_findings(facts: Seq<EntryFactsModel>, x: int) -> Seq<Finding> {
    let all = partners(facts, x, facts.len());
    named_partners(facts, x, facts.len()) + finding::when(
        all > MAX_OVERLAP_DIAGS,
        Finding::MoreOverlaps { more: (all - MAX_OVERLAP_DIAGS) as u64 },
    )
}

/// The models of a list of facts.
pub open spec fn fact_models(facts: Seq<EntryFacts>) -> Seq<EntryFactsModel> {
    Seq::new(facts.len(), |i: int| facts[i]@)
}

fn is_overlap(a: &EntryFacts, b: &EntryFacts) -> (r: bool)
    ensures
        r == overlap(a@, b@),
{
    a.first_lba <= b.last_lba && b.first_lba <= a.last_lba && a.first_lba <= a.last_lba
        && b.first_lba <= b.last_lba && !a.is_unused() && !b.is_unused()
}

/// Find the entries that claim the same sectors as entry `x`.
pub fn mark_overlaps(facts: &[EntryFacts], x: usize) -> (out: Vec<Finding>)
    requires
        x < facts@.len(),
    ensures
        out@ == overlap_findings(fact_models(facts@), x as int),
{
    let ghost all = fact_models(facts@);
    let mut out: Vec<Finding> = Vec::new();
    let mut count: u64 = 0;
    let mut y: usize = 0;
    while y < facts.len()
        invariant
            y <= facts@.len(),
            x < facts@.len(),
            all == fact_models(facts@),
            count == partners(all, x as int, y as nat),
            count <= y,
            out@ =~= named_partners(all, x as int, y as nat),
        decreases facts@.len() - y,
    {
        let a = &facts[x];
        let b = &facts[y];
        let hit: bool = y != x && is_overlap(a, b);
        note(
            &mut out,
            hit && count < MAX_OVERLAP_DIAGS,
            Finding::Overlap {
                other: y as u64,
                first: a.first_lba,
                last: a.last_lba,
                other_first: b.first_lba,
                other_last: b.last_lba,
            },
        );
        if hit {
            count += 1;
        }
        y += 1;
    }
    let more: u64 = if count > MAX_OVERLAP_DIAGS { count - MAX_OVERLAP_DIAGS } else { 0 };
    note(&mut out, count > MAX_OVERLAP_DIAGS, Finding::MoreOverlaps { more });
    out
}

/// However many entries overlap one, at most nine findings say so.
pub proof fn lemma_overlaps_are_bounded(facts: Seq<EntryFactsModel>, x: int)
    ensures
        overlap_findings(facts, x).len() <= MAX_OVERLAP_DIAGS + 1,
        overlap_findings(facts, x).len() == 0 <==> partners(facts, x, facts.len()) == 0,
{
    lemma_named_bounded(facts, x, facts.len());
}

proof fn lemma_named_bounded(facts: Seq<EntryFactsModel>, x: int, n: nat)
    ensures
        named_partners(facts, x, n).len() == if partners(facts, x, n) <= MAX_OVERLAP_DIAGS {
            partners(facts, x, n) as int
        } else {
            MAX_OVERLAP_DIAGS as int
        },
    decreases n,
{
    if n > 0 {
        lemma_named_bounded(facts, x, (n - 1) as nat);
    }
}

/// The entries named on entry `x` are others that overlap it, each named once and in
/// the order of the table.
pub proof fn lemma_each_partner_is_named_once(facts: Seq<EntryFactsModel>, x: int, n: nat)
    requires
        n <= facts.len() <= u64::MAX,
    ensures
        ({
            let named = named_partners(facts, x, n);
            &&& forall|i: int|
                0 <= i < named.len() ==> (#[trigger] named[i] matches Finding::Overlap {
                    other,
                    first,
                    last,
                    other_first,
                    other_last,
                } && other < n && other != x && overlap(facts[x], facts[other as int]) && first
                    == facts[x].first_lba && last == facts[x].last_lba && other_first
                    == facts[other as int].first_lba && other_last
                    == facts[other as int].last_lba)
            &&& forall|i: int, j: int|
                0 <= i < j < named.len() ==> (#[trigger] named[i])->Overlap_other < (
                #[trigger] named[j])->Overlap_other
        }),
    decreases n,
{
    if n > 0 {
        lemma_each_partner_is_named_once(facts, x, (n - 1) as nat);
    }
}

/// Overlap goes both ways.
pub proof fn lemma_overlap_is_mutual(a: EntryFactsModel, b: EntryFactsModel)
    ensures
        overlap(a, b) == overlap(b, a),
{
}

} // verus!
