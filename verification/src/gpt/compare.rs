//! The primary copy against the backup.
//!
//! The two headers disagree by design in four fields. A comparison that does not know
//! which four reports false differences every time and is therefore ignored, which is
//! worse than not having one.

use crate::common;
use crate::common::{div_ceil, mul_add, u32_or_zero, u64_or_zero};
use crate::desc::FieldDesc;
use crate::gpt::array;
use crate::gpt::array::{ArrayPlan, ArrayPlanModel};
use crate::gpt::desc;
use crate::gpt::finding;
use crate::gpt::finding::{note, worst_of, Finding};
use crate::gpt::guids;
use crate::gpt::header;
use crate::gpt::header::{Header, HeaderFacts, HeaderModel};
use crate::source;
use crate::status::Status;
use crate::text;
use crate::text::Text;
use vstd::prelude::*;
use vstd::slice::slice_subrange;

verus! {

// ------------------------------------------------------------------ the headers

/// The fields whose values are expected to differ between the copies, by offset:
/// `my_lba` and `alternate_lba` are swapped by design, `entries_lba` names each copy's
/// own array, and `header_crc32` covers all three.
pub open spec fn mirrored(off: u64) -> bool {
    off == 0x10 || off == 0x18 || off == 0x20 || off == 0x48
}

/// The names of those fields.
pub const MIRRORED_FIELDS: [&'static str; 4] = [
    "my_lba",
    "alternate_lba",
    "entries_lba",
    "header_crc32",
];

/// The named fields are the mirrored ones, and there are no others in a header.
pub proof fn lemma_mirrored_fields_are_named(i: int)
    requires
        0 <= i < desc::gpt_header_fields().len(),
    ensures
        mirrored(desc::gpt_header_fields()[i].off) <==> exists|j: int|
            0 <= j < 4 && (#[trigger] MIRRORED_FIELDS@[j])@ == desc::gpt_header_fields()[i].name@,
{
    reveal_strlit("signature");
    reveal_strlit("revision");
    reveal_strlit("header_size");
    reveal_strlit("header_crc32");
    reveal_strlit("reserved");
    reveal_strlit("my_lba");
    reveal_strlit("alternate_lba");
    reveal_strlit("first_usable_lba");
    reveal_strlit("last_usable_lba");
    reveal_strlit("disk_guid");
    reveal_strlit("entries_lba");
    reveal_strlit("num_entries");
    reveal_strlit("entry_size");
    reveal_strlit("entries_crc32");
    let all = MIRRORED_FIELDS@;
    assert(all[0]@ == "my_lba"@);
    assert(all[1]@ == "alternate_lba"@);
    assert(all[2]@ == "entries_lba"@);
    assert(all[3]@ == "header_crc32"@);
    let f = desc::gpt_header_fields()[i];
    if !mirrored(f.off) {
        assert forall|j: int| 0 <= j < 4 implies (#[trigger] MIRRORED_FIELDS@[j])@ != f.name@ by {
            assert(f.name@.len() != all[j]@.len() || f.name@[0] != all[j]@[0]);
        }
    }
}

/// One field on which the primary and backup headers genuinely disagree.
#[derive(Debug, PartialEq, Eq)]
pub struct HeaderDiff {
    pub field: &'static str,
    pub primary: String,
    pub backup: String,
}

/// What a [`HeaderDiff`] says.
pub struct HeaderDiffModel {
    pub field: Seq<char>,
    pub primary: Seq<char>,
    pub backup: Seq<char>,
}

impl View for HeaderDiff {
    type V = HeaderDiffModel;

    open spec fn view(&self) -> HeaderDiffModel {
        HeaderDiffModel {
            field: self.field@,
            primary: self.primary@,
            backup: self.backup@,
        }
    }
}

/// The models of a list of differences.
pub open spec fn diff_models(diffs: Seq<HeaderDiff>) -> Seq<HeaderDiffModel> {
    Seq::new(diffs.len(), |i: int| diffs[i]@)
}

/// The bytes of a field that were read.
pub open spec fn raw_of(b: Seq<u8>, f: FieldDesc) -> Seq<u8> {
    source::window(b, f.off as int, f.width as int)
}

/// A field's value as text: the signature as ASCII, the disk GUID as a GUID, reserved
/// bytes as bytes and everything else as a number. What was not read in full is shown
/// as the bytes there are.
pub open spec fn shown(b: Seq<u8>, f: FieldDesc) -> Seq<char> {
    let raw = raw_of(b, f);
    if raw.len() < f.width {
        "?? ("@ + text::hex_bytes(raw) + ")"@
    } else if f.off == 0x00 {
        text::ascii(raw)
    } else if f.off == 0x14 {
        text::hex_bytes(raw)
    } else if f.off == 0x38 {
        guids::guid_text(raw)
    } else if f.width == 4 {
        text::dec(common::le32(raw, 0) as int)
    } else {
        text::dec(common::le64(raw, 0) as int)
    }
}

/// The fields of the first `n` on which two header blocks disagree.
pub open spec fn diffs_of(p: Seq<u8>, b: Seq<u8>, n: nat) -> Seq<HeaderDiffModel>
    decreases n,
{
    if n == 0 {
        Seq::empty()
    } else {
        let f = desc::gpt_header_fields()[n - 1];
        let before = diffs_of(p, b, (n - 1) as nat);
        if !mirrored(f.off) && raw_of(p, f) != raw_of(b, f) {
            before.push(
                HeaderDiffModel { field: f.name@, primary: shown(p, f), backup: shown(b, f) },
            )
        } else {
            before
        }
    }
}

/// Every field on which two header blocks disagree and should not.
pub open spec fn all_diffs(p: Seq<u8>, b: Seq<u8>) -> Seq<HeaderDiffModel> {
    diffs_of(p, b, desc::gpt_header_fields().len())
}

fn raw<'a>(b: &'a [u8], f: &FieldDesc) -> (r: &'a [u8])
    ensures
        r@ == raw_of(b@, *f),
{
    let len: u64 = b.len() as u64;
    if f.off >= len {
        let r: &[u8] = slice_subrange(b, 0, 0);
        assert(r@ =~= raw_of(b@, *f));
        return r;
    }
    let end: u64 = if f.width <= len - f.off { f.off + f.width } else { len };
    let r: &[u8] = slice_subrange(b, f.off as usize, end as usize);
    assert(r@ =~= raw_of(b@, *f));
    r
}

fn same(a: &[u8], b: &[u8]) -> (r: bool)
    ensures
        r == (a@ == b@),
{
    if a.len() != b.len() {
        return false;
    }
    let mut i: usize = 0;
    while i < a.len()
        invariant
            i <= a@.len(),
            a@.len() == b@.len(),
            forall|j: int| 0 <= j < i ==> a@[j] == b@[j],
        decreases a@.len() - i,
    {
        if a[i] != b[i] {
            assert(a@[i as int] != b@[i as int]);
            return false;
        }
        i += 1;
    }
    assert(a@ =~= b@);
    true
}

fn show(b: &[u8], f: &FieldDesc) -> (r: String)
    requires
        f.off == 0x38 ==> f.width == 16,
        f.off != 0x00 && f.off != 0x14 && f.off != 0x38 ==> f.width == 4 || f.width == 8,
    ensures
        r@ == shown(b@, *f),
{
    let raw: &[u8] = raw(b, f);
    proof {
        reveal_strlit("");
    }
    if (raw.len() as u64) < f.width {
        return Text::of("?? (").hex_bytes(raw).lit(")").done();
    }
    if f.off == 0x00 {
        let t = Text::of("").ascii(raw);
        assert(t@ =~= text::ascii(raw@));
        t.done()
    } else if f.off == 0x14 {
        let t = Text::of("").hex_bytes(raw);
        assert(t@ =~= text::hex_bytes(raw@));
        t.done()
    } else if f.off == 0x38 {
        guids::format_guid(raw)
    } else if f.width == 4 {
        let t = Text::of("").dec(u32_or_zero(raw, 0) as u64);
        assert(t@ =~= text::dec(common::le32(raw@, 0) as int));
        t.done()
    } else {
        let t = Text::of("").dec(u64_or_zero(raw, 0));
        assert(t@ =~= text::dec(common::le64(raw@, 0) as int));
        t.done()
    }
}

/// Compare two headers field by field, skipping the four that are supposed to differ.
pub fn diff_headers(primary: &Header, backup: &Header) -> (r: Vec<HeaderDiff>)
    ensures
        diff_models(r@) == all_diffs(primary@.block, backup@.block),
{
    let layout = desc::gpt_header();
    let p: &[u8] = primary.block.as_slice();
    let b: &[u8] = backup.block.as_slice();
    let mut out: Vec<HeaderDiff> = Vec::new();
    let mut i: usize = 0;
    while i < layout.fields.len()
        invariant
            i <= layout.fields@.len(),
            layout.fields@ == desc::gpt_header_fields(),
            diff_models(out@) =~= diffs_of(p@, b@, i as nat),
        decreases layout.fields@.len() - i,
    {
        let ghost before = diff_models(out@);
        let f: FieldDesc = layout.fields[i];
        let expected: bool = f.off == 0x10 || f.off == 0x18 || f.off == 0x20 || f.off == 0x48;
        if !expected && !same(raw(p, &f), raw(b, &f)) {
            let d = HeaderDiff { field: f.name, primary: show(p, &f), backup: show(b, &f) };
            out.push(d);
            assert(diff_models(out@) =~= before.push(d@));
        }
        i += 1;
    }
    out
}

/// Two headers that agree outside the four mirrored fields do not differ, whatever the
/// four hold.
pub proof fn lemma_mirrored_fields_are_no_difference(p: Seq<u8>, b: Seq<u8>)
    requires
        p.len() == b.len(),
        forall|i: int|
            0 <= i < p.len() && !(0x10 <= i < 0x14 || 0x18 <= i < 0x28 || 0x48 <= i < 0x50)
                ==> p[i] == b[i],
    ensures
        all_diffs(p, b) =~= Seq::empty(),
{
    lemma_no_diffs(p, b, desc::gpt_header_fields().len());
}

proof fn lemma_no_diffs(p: Seq<u8>, b: Seq<u8>, n: nat)
    requires
        n <= desc::gpt_header_fields().len(),
        p.len() == b.len(),
        forall|i: int|
            0 <= i < p.len() && !(0x10 <= i < 0x14 || 0x18 <= i < 0x28 || 0x48 <= i < 0x50)
                ==> p[i] == b[i],
    ensures
        diffs_of(p, b, n) =~= Seq::empty(),
    decreases n,
{
    if n > 0 {
        lemma_no_diffs(p, b, (n - 1) as nat);
        let f = desc::gpt_header_fields()[n - 1];
        if !mirrored(f.off) {
            assert(raw_of(p, f) =~= raw_of(b, f));
        }
    }
}

impl HeaderDiffModel {
    /// The difference, in words.
    pub open spec fn text(self) -> Seq<char> {
        "primary "@ + self.primary + " / backup "@ + self.backup
    }
}

impl HeaderDiff {
    /// The difference, in words.
    pub fn message(&self) -> (r: String)
        ensures
            r@ == self@.text(),
    {
        Text::of("primary ").lit(self.primary.as_str()).lit(" / backup ").lit(
            self.backup.as_str(),
        ).done()
    }

    /// What the difference is called.
    pub fn label(&self) -> (r: String)
        ensures
            r@ == self.field@ + " differs"@,
    {
        Text::of(self.field).lit(" differs").done()
    }
}

// ------------------------------------------------------------------- the mirror

/// Where the backup's array ends, where it declares one.
pub open spec fn backup_end(b: HeaderFacts, block: u64) -> Option<u64> {
    match array::declared(b) {
        Some(len) if len > 0 => Some(array::end_lba(b, len, block)),
        _ => None,
    }
}

/// The invariants that tie the two copies together, checked rather than assumed.
pub open spec fn mirror_findings(p: HeaderFacts, b: HeaderFacts, block: u64) -> Seq<Finding> {
    if !p.present || !b.present {
        Seq::empty()
    } else {
        Seq::<Finding>::empty() + finding::when(
            b.alternate_lba != p.my_lba,
            Finding::BackupPointsElsewhere { alternate: b.alternate_lba, my_lba: p.my_lba },
        ) + finding::when(
            p.alternate_lba != b.my_lba,
            Finding::PrimaryPointsElsewhere { alternate: p.alternate_lba, my_lba: b.my_lba },
        ) + match backup_end(b, block) {
            Some(end) => finding::when(
                end != b.my_lba,
                Finding::BackupArrayGap { end, my_lba: b.my_lba },
            ),
            None => Seq::empty(),
        }
    }
}

/// Check the invariants that tie the two copies together.
pub fn mirror_diags(p: &HeaderFacts, b: &HeaderFacts, block: u64) -> (out: Vec<Finding>)
    requires
        block > 0,
    ensures
        out@ == mirror_findings(*p, *b, block),
{
    let mut out: Vec<Finding> = Vec::new();
    if !p.present || !b.present {
        return out;
    }
    note(
        &mut out,
        b.alternate_lba != p.my_lba,
        Finding::BackupPointsElsewhere { alternate: b.alternate_lba, my_lba: p.my_lba },
    );
    note(
        &mut out,
        p.alternate_lba != b.my_lba,
        Finding::PrimaryPointsElsewhere { alternate: p.alternate_lba, my_lba: b.my_lba },
    );
    if let Some(len) = mul_add(b.num_entries, b.entry_size, 0) {
        assert(array::declared(*b) == Some(len));
        if len > 0 {
            let end: u64 = b.entries_lba.saturating_add(div_ceil(len, block));
            note(&mut out, end != b.my_lba, Finding::BackupArrayGap { end, my_lba: b.my_lba });
        }
    }
    assert(out@ =~= mirror_findings(*p, *b, block));
    out
}

// ------------------------------------------------------------------- the arrays

/// How many of the first `n` bytes of two arrays differ.
pub open spec fn differing(a: Seq<u8>, b: Seq<u8>, n: nat) -> nat
    decreases n,
{
    if n == 0 {
        0
    } else {
        differing(a, b, (n - 1) as nat) + if a[n - 1] != b[n - 1] {
            1nat
        } else {
            0nat
        }
    }
}

/// How many bytes of two arrays differ, counting the excess of the longer.
pub open spec fn difference(a: Seq<u8>, b: Seq<u8>) -> int {
    if a.len() <= b.len() {
        differing(a, b, a.len()) + (b.len() - a.len())
    } else {
        differing(a, b, b.len()) + (a.len() - b.len())
    }
}

/// What is said of the two arrays.
pub open spec fn array_verdict(p: ArrayPlanModel, b: ArrayPlanModel) -> Finding {
    match (p.bytes, b.bytes) {
        (Some(x), Some(y)) => if x == y {
            Finding::ArraysIdentical
        } else {
            Finding::ArraysDiffer { differing: difference(x, y) as u64 }
        },
        _ => Finding::ArraysNotCompared,
    }
}

fn count_difference(a: &[u8], b: &[u8]) -> (r: u64)
    ensures
        r == difference(a@, b@),
{
    let n: usize = if a.len() <= b.len() { a.len() } else { b.len() };
    let more: u64 = if a.len() <= b.len() {
        (b.len() - a.len()) as u64
    } else {
        (a.len() - b.len()) as u64
    };
    let mut count: u64 = 0;
    let mut i: usize = 0;
    while i < n
        invariant
            i <= n,
            n <= a@.len(),
            n <= b@.len(),
            count == differing(a@, b@, i as nat),
            count <= i,
        decreases n - i,
    {
        if a[i] != b[i] {
            count += 1;
        }
        i += 1;
    }
    count + more
}

fn judge_arrays(p: &ArrayPlan, b: &ArrayPlan) -> (r: Finding)
    ensures
        r == array_verdict(p@, b@),
{
    match (&p.bytes, &b.bytes) {
        (Some(x), Some(y)) => if same(x, y) {
            Finding::ArraysIdentical
        } else {
            Finding::ArraysDiffer { differing: count_difference(x, y) }
        },
        _ => Finding::ArraysNotCompared,
    }
}

// ------------------------------------------------------------------ the verdict

/// Whether the headers agree, and which to believe where they do not: each header's
/// own checksum answers that, since a copy that sums correctly was written
/// deliberately by something that understood GPT.
pub open spec fn header_verdict(p: HeaderModel, b: HeaderModel) -> Seq<Finding> {
    if all_diffs(p.block, b.block).len() == 0 {
        finding::when(p.facts.present && b.facts.present, Finding::HeadersAgree)
    } else {
        let p_ok = p.crc matches Some(c) && c.agrees();
        let b_ok = b.crc matches Some(c) && c.agrees();
        seq![
            if p_ok && !b_ok {
                Finding::PrimaryWhole
            } else if !p_ok && b_ok {
                Finding::BackupWhole
            } else if p_ok {
                Finding::BothWhole
            } else {
                Finding::NeitherWhole
            },
        ]
    }
}

/// The primary-versus-backup view: what differs, what is supposed to differ, and
/// whether the two entry arrays are byte-identical.
#[derive(Debug)]
pub struct Comparison {
    pub diffs: Vec<HeaderDiff>,
    pub findings: Vec<Finding>,
}

/// What a [`Comparison`] says.
pub struct ComparisonModel {
    pub diffs: Seq<HeaderDiffModel>,
    pub findings: Seq<Finding>,
}

impl View for Comparison {
    type V = ComparisonModel;

    open spec fn view(&self) -> ComparisonModel {
        ComparisonModel { diffs: diff_models(self.diffs@), findings: self.findings@ }
    }
}

/// The comparison of two copies.
pub open spec fn comparison_of(
    p: HeaderModel,
    b: HeaderModel,
    pplan: ArrayPlanModel,
    bplan: ArrayPlanModel,
    block: u64,
) -> ComparisonModel {
    ComparisonModel {
        diffs: all_diffs(p.block, b.block),
        findings: mirror_findings(p.facts, b.facts, block).push(array_verdict(pplan, bplan))
            + header_verdict(p, b),
    }
}

/// Compare the two copies.
pub fn compare_copies(
    primary: &Header,
    backup: &Header,
    pplan: &ArrayPlan,
    bplan: &ArrayPlan,
    block: u64,
) -> (r: Comparison)
    requires
        block > 0,
    ensures
        r@ == comparison_of(primary@, backup@, pplan@, bplan@, block),
{
    let diffs: Vec<HeaderDiff> = diff_headers(primary, backup);
    assert(diffs@.len() == diff_models(diffs@).len());
    let mut findings: Vec<Finding> = mirror_diags(&primary.facts, &backup.facts, block);
    findings.push(judge_arrays(pplan, bplan));
    let ghost start = findings@;
    if diffs.len() == 0 {
        note(
            &mut findings,
            primary.facts.present && backup.facts.present,
            Finding::HeadersAgree,
        );
    } else {
        let p_ok: bool = match primary.crc {
            Some(c) => c.matches(),
            None => false,
        };
        let b_ok: bool = match backup.crc {
            Some(c) => c.matches(),
            None => false,
        };
        findings.push(
            if p_ok && !b_ok {
                Finding::PrimaryWhole
            } else if !p_ok && b_ok {
                Finding::BackupWhole
            } else if p_ok {
                Finding::BothWhole
            } else {
                Finding::NeitherWhole
            },
        );
    }
    assert(findings@ =~= start + header_verdict(primary@, backup@));
    Comparison { diffs, findings }
}

impl ComparisonModel {
    /// How serious the worst of the comparison is. A field that must match and does
    /// not is damage.
    pub open spec fn severity(self) -> Status {
        finding::worst(self.findings).worse(
            if self.diffs.len() > 0 {
                Status::Bad
            } else {
                Status::Clean
            },
        )
    }
}

impl Comparison {
    /// How serious the worst of the comparison is.
    pub fn status(&self) -> (r: Status)
        ensures
            r == self@.severity(),
    {
        assert(self@.diffs.len() == self.diffs@.len());
        worst_of(&self.findings).merge(
            if self.diffs.len() > 0 {
                Status::Bad
            } else {
                Status::Clean
            },
        )
    }
}

} // verus!
