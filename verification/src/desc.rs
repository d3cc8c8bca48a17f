//! Record layouts as data, and the one reader that every record goes through.
//!
//! One line per field says where it is, how wide it is and what its value must
//! satisfy on its own. What spans records is for the format modules.

use crate::common;
use crate::source::{BlockSource, Device, ReadOutcome};
use crate::status::Status;
use vstd::prelude::*;

verus! {

/// What a field's own bytes must satisfy.
#[derive(Clone, Copy, Debug, PartialEq, Eq, Structural)]
pub enum Check {
    Any,
    Equal { value: u64 },
    OneOf { a: u64, b: u64 },
    Range { lo: u64, hi: u64 },
    OneOrRange { one: u64, lo: u64, hi: u64 },
    PowerOfTwo { lo: u64, hi: u64 },
    NonZero,
    /// Every byte is zero, however wide the field is.
    AllZero,
}

/// One field of a record.
#[derive(Clone, Copy, Debug)]
pub struct FieldDesc {
    pub name: &'static str,
    pub off: u64,
    pub width: u64,
    pub check: Check,
}

/// The layout of a record.
#[derive(Debug)]
pub struct StructDesc {
    pub name: &'static str,
    pub size: u64,
    pub fields: Vec<FieldDesc>,
}

/// What a [`StructDesc`] says.
pub struct DescModel {
    pub name: Seq<char>,
    pub size: u64,
    pub fields: Seq<FieldDesc>,
}

impl View for StructDesc {
    type V = DescModel;

    open spec fn view(&self) -> DescModel {
        DescModel { name: self.name@, size: self.size, fields: self.fields@ }
    }
}

/// The models of a list of layouts.
pub open spec fn models(descs: Seq<StructDesc>) -> Seq<DescModel> {
    Seq::new(descs.len(), |i: int| descs[i]@)
}

/// The fields cover `size` bytes from the first to the last, with no gap and no
/// overlap.
pub open spec fn tile(fields: Seq<FieldDesc>, size: u64) -> bool {
    &&& fields.len() > 0
    &&& fields[0].off == 0
    &&& fields.last().off + fields.last().width == size
    &&& forall|i: int| 0 <= i < fields.len() ==> (#[trigger] fields[i]).width > 0
    &&& forall|i: int|
        0 < i < fields.len() ==> (#[trigger] fields[i]).off == fields[i - 1].off + fields[i
            - 1].width
}

impl StructDesc {
    /// The fields tile the record exactly.
    pub open spec fn tiles(self) -> bool {
        tile(self.fields@, self.size)
    }
}

/// Every layout of the list tiles its record.
pub open spec fn all_tile(descs: Seq<StructDesc>) -> bool {
    forall|i: int| 0 <= i < descs.len() ==> (#[trigger] descs[i]).tiles()
}

/// In a layout that tiles, every byte of the record belongs to exactly one field.
pub proof fn lemma_tiles_cover(fields: Seq<FieldDesc>, size: u64, b: int)
    requires
        tile(fields, size),
        0 <= b < size,
    ensures
        exists|i: int|
            0 <= i < fields.len() && (#[trigger] fields[i]).off <= b < fields[i].off
                + fields[i].width,
        forall|i: int, j: int|
            0 <= i < fields.len() && 0 <= j < fields.len() && (#[trigger] fields[i]).off <= b
                < fields[i].off + fields[i].width && (#[trigger] fields[j]).off <= b
                < fields[j].off + fields[j].width ==> i == j,
{
    lemma_field_after(fields, size, b, fields.len() as int);
    assert forall|i: int, j: int|
        0 <= i < j < fields.len() implies fields[i].off + fields[i].width <= fields[j].off by {
        lemma_fields_in_order(fields, size, i, j);
    }
}

proof fn lemma_fields_in_order(fields: Seq<FieldDesc>, size: u64, i: int, j: int)
    requires
        tile(fields, size),
        0 <= i < j < fields.len(),
    ensures
        fields[i].off + fields[i].width <= fields[j].off,
    decreases j - i,
{
    assert(fields[j].off == fields[j - 1].off + fields[j - 1].width);
    if i < j - 1 {
        lemma_fields_in_order(fields, size, i, j - 1);
        assert(fields[j - 1].width > 0);
    }
}

proof fn lemma_field_after(fields: Seq<FieldDesc>, size: u64, b: int, n: int)
    requires
        tile(fields, size),
        0 < n <= fields.len(),
        0 <= b < fields[n - 1].off + fields[n - 1].width,
    ensures
        exists|i: int|
            0 <= i < fields.len() && (#[trigger] fields[i]).off <= b < fields[i].off
                + fields[i].width,
    decreases n,
{
    if b >= fields[n - 1].off {
        assert(fields[n - 1].off <= b);
    } else {
        assert(fields[n - 1].off == fields[n - 2].off + fields[n - 2].width);
        lemma_field_after(fields, size, b, n - 1);
    }
}

// ------------------------------------------------------------------- reading

/// The little-endian number in a byte string.
pub open spec fn le_number(raw: Seq<u8>) -> int
    decreases raw.len(),
{
    if raw.len() == 0 {
        0
    } else {
        raw[0] + 0x100 * le_number(raw.skip(1))
    }
}

/// `raw` is all zero.
pub open spec fn all_zero(raw: Seq<u8>) -> bool {
    forall|i: int| 0 <= i < raw.len() ==> #[trigger] raw[i] == 0
}

/// `x` is a power of two.
pub open spec fn power_of_two(x: int) -> bool {
    exists|n: nat| x == #[trigger] vstd::arithmetic::power2::pow2(n)
}

impl Check {
    /// The value, or for [`Check::AllZero`] the bytes, satisfy the check.
    pub open spec fn holds(self, value: int, zero: bool) -> bool {
        match self {
            Check::Any => true,
            Check::Equal { value: v } => value == v,
            Check::OneOf { a, b } => value == a || value == b,
            Check::Range { lo, hi } => lo <= value <= hi,
            Check::OneOrRange { one, lo, hi } => value == one || lo <= value <= hi,
            Check::PowerOfTwo { lo, hi } => lo <= value <= hi && power_of_two(value),
            Check::NonZero => value != 0,
            Check::AllZero => zero,
        }
    }
}

/// A field as it was read.
#[derive(Clone, Copy, Debug)]
pub struct FieldValue {
    pub name: &'static str,
    pub at: u64,
    pub len: u64,
    /// False when the record was too short to hold the field.
    pub present: bool,
    /// The little-endian number, for a field of up to eight bytes.
    pub number: Option<u64>,
    /// False when the field is there and its check fails.
    pub passes: bool,
}

/// The bytes of a field, where the record is long enough to hold them.
pub open spec fn field_raw(bytes: Seq<u8>, f: FieldDesc) -> Seq<u8> {
    bytes.subrange(f.off as int, f.off + f.width)
}

/// Field `f` of the record at `at` whose bytes are `bytes`.
pub open spec fn field_of(bytes: Seq<u8>, at: u64, f: FieldDesc) -> FieldValue {
    let present = f.off + f.width <= bytes.len();
    let raw = field_raw(bytes, f);
    FieldValue {
        name: f.name,
        at: common::saturated(at + f.off),
        len: f.width,
        present,
        number: if present && f.width <= 8 { Some(le_number(raw) as u64) } else { None },
        passes: !present || f.check.holds(
            if f.width <= 8 { le_number(raw) } else { -1 },
            all_zero(raw),
        ),
    }
}

/// A record as it was read.
#[derive(Debug)]
pub struct Record {
    pub name: &'static str,
    pub at: u64,
    /// Base of the region the record belongs to.
    pub region_base: u64,
    pub unreadable: bool,
    pub fields: Vec<FieldValue>,
}

/// What a record says, as a mathematical value.
pub struct RecordModel {
    pub name: Seq<char>,
    pub at: u64,
    pub region_base: u64,
    pub unreadable: bool,
    pub fields: Seq<FieldValue>,
}

impl View for Record {
    type V = RecordModel;

    open spec fn view(&self) -> RecordModel {
        RecordModel {
            name: self.name@,
            at: self.at,
            region_base: self.region_base,
            unreadable: self.unreadable,
            fields: self.fields@,
        }
    }
}

/// The record at `at` of which `data` was read, on behalf of the region at
/// `region_base`.
pub open spec fn struct_of(
    name: Seq<char>,
    fields: Seq<FieldDesc>,
    data: Seq<u8>,
    unreadable: bool,
    at: u64,
    region_base: u64,
) -> RecordModel {
    RecordModel { name, at, region_base, unreadable, fields: fields_of(fields, data, at) }
}

/// The record of `size` bytes at `at`, read on behalf of the region at `region_base`.
pub open spec fn record_of(
    dev: Device,
    name: Seq<char>,
    size: u64,
    fields: Seq<FieldDesc>,
    at: u64,
    region_base: u64,
) -> RecordModel {
    struct_of(
        name,
        fields,
        dev.read(at, size).data,
        dev.read(at, size).refused(),
        at,
        region_base,
    )
}

impl RecordModel {
    /// Some field is there and fails its check.
    pub open spec fn flawed(self) -> bool {
        exists|i: int| 0 <= i < self.fields.len() && !(#[trigger] self.fields[i]).passes
    }

    /// How serious what the record says on its own is: bytes that could not be read,
    /// a field that fails its check, or nothing.
    pub open spec fn severity(self) -> Status {
        if self.unreadable {
            Status::Unreadable
        } else if self.flawed() {
            Status::Bad
        } else {
            Status::Clean
        }
    }
}

/// Where a record is read from, and on whose behalf.
#[derive(Clone, Copy, Debug, PartialEq, Eq, Structural)]
pub struct ReadCtx {
    pub base: u64,
    pub region_base: u64,
}

impl ReadCtx {
    /// A context whose region starts where the record does.
    pub fn at(base: u64) -> (r: ReadCtx)
        ensures
            r == (ReadCtx { base, region_base: base }),
    {
        ReadCtx { base, region_base: base }
    }
}

/// The fields of a record at `at` of which `bytes` was read.
pub open spec fn fields_of(fields: Seq<FieldDesc>, bytes: Seq<u8>, at: u64) -> Seq<FieldValue> {
    Seq::new(fields.len(), |i: int| field_of(bytes, at, fields[i]))
}

proof fn lemma_le_number_bound(raw: Seq<u8>)
    requires
        raw.len() <= 8,
    ensures
        0 <= le_number(raw) <= u64::MAX,
        raw.len() <= 7 ==> le_number(raw) < 0x100_0000_0000_0000,
        raw.len() <= 6 ==> le_number(raw) < 0x1_0000_0000_0000,
        raw.len() <= 5 ==> le_number(raw) < 0x100_0000_0000,
        raw.len() <= 4 ==> le_number(raw) < 0x1_0000_0000,
        raw.len() <= 3 ==> le_number(raw) < 0x100_0000,
        raw.len() <= 2 ==> le_number(raw) < 0x1_0000,
        raw.len() <= 1 ==> le_number(raw) < 0x100,
    decreases raw.len(),
{
    if raw.len() > 0 {
        lemma_le_number_bound(raw.skip(1));
    }
}

fn number_at(bytes: &[u8], off: usize, width: usize) -> (r: u64)
    requires
        width <= 8,
        off + width <= bytes@.len(),
    ensures
        r == le_number(bytes@.subrange(off as int, off + width)),
    decreases width,
{
    proof {
        lemma_le_number_bound(bytes@.subrange(off as int, off + width));
    }
    let len: usize = bytes.len();
    if width == 0 {
        return 0;
    }
    let ghost raw = bytes@.subrange(off as int, off + width);
    assert(raw.skip(1) =~= bytes@.subrange(off + 1, off + width));
    let rest: u64 = number_at(bytes, off + 1, width - 1);
    bytes[off] as u64 + 0x100 * rest
}

fn zeros_at(bytes: &[u8], off: usize, width: usize) -> (r: bool)
    requires
        off + width <= bytes@.len(),
    ensures
        r == all_zero(bytes@.subrange(off as int, off + width)),
{
    let ghost raw = bytes@.subrange(off as int, off + width);
    let mut i: usize = 0;
    let len: usize = bytes.len();
    while i < width
        invariant
            i <= width,
            off + width <= len,
            len == bytes@.len(),
            raw == bytes@.subrange(off as int, off + width),
            forall|j: int| 0 <= j < i ==> #[trigger] raw[j] == 0,
        decreases width - i,
    {
        if bytes[off + i] != 0 {
            assert(raw[i as int] != 0);
            return false;
        }
        i += 1;
    }
    true
}

fn is_power_of_two(x: u64) -> (r: bool)
    ensures
        r == power_of_two(x as int),
{
    let mut p: u64 = 1;
    let ghost mut n: nat = 0;
    proof {
        vstd::arithmetic::power2::lemma2_to64();
    }
    while p < x
        invariant
            p == vstd::arithmetic::power2::pow2(n),
            n <= 63,
            p > 0,
            forall|m: nat| m < n ==> x != #[trigger] vstd::arithmetic::power2::pow2(m),
            vstd::arithmetic::power2::pow2(64) == 0x1_0000_0000_0000_0000,
        decreases 64 - n,
    {
        proof {
            vstd::arithmetic::power2::lemma_pow2_unfold((n + 1) as nat);
            vstd::arithmetic::power2::lemma_pow2_pos(n);
        }
        if p > u64::MAX / 2 {
            proof {
                if n < 63 {
                    vstd::arithmetic::power2::lemma_pow2_strictly_increases(
                        (n + 1) as nat,
                        64,
                    );
                }
                assert(2 * p == vstd::arithmetic::power2::pow2((n + 1) as nat));
                assert forall|m: nat| x != #[trigger] vstd::arithmetic::power2::pow2(m) by {
                    if m > n {
                        if m > n + 1 {
                            vstd::arithmetic::power2::lemma_pow2_strictly_increases(
                                (n + 1) as nat,
                                m,
                            );
                        }
                    }
                }
            }
            return false;
        }
        assert(n < 63) by {
            if n == 63 {
                assert(2 * p == vstd::arithmetic::power2::pow2(64));
            }
        }
        p = 2 * p;
        proof {
            n = n + 1;
        }
    }
    proof {
        if x == p {
            assert(x == vstd::arithmetic::power2::pow2(n));
        } else {
            assert forall|m: nat| x != #[trigger] vstd::arithmetic::power2::pow2(m) by {
                if m > n {
                    vstd::arithmetic::power2::lemma_pow2_strictly_increases(n, m);
                }
            }
        }
    }
    x == p
}

impl Check {
    /// The value satisfies the check.
    fn test(&self, value: u64, wide: bool, zero: bool) -> (r: bool)
        ensures
            r == self.holds(if wide { -1 } else { value as int }, zero),
    {
        match *self {
            Check::Any => true,
            Check::Equal { value: v } => !wide && value == v,
            Check::OneOf { a, b } => !wide && (value == a || value == b),
            Check::Range { lo, hi } => !wide && lo <= value && value <= hi,
            Check::OneOrRange { one, lo, hi } => !wide && (value == one || lo <= value && value
                <= hi),
            Check::PowerOfTwo { lo, hi } => !wide && lo <= value && value <= hi && is_power_of_two(
                value,
            ),
            Check::NonZero => wide || value != 0,
            Check::AllZero => zero,
        }
    }
}

fn read_field(bytes: &[u8], at: u64, f: &FieldDesc) -> (r: FieldValue)
    ensures
        r == field_of(bytes@, at, *f),
{
    let len: u64 = bytes.len() as u64;
    let present: bool = f.width <= len && f.off <= len - f.width;
    if !present {
        return FieldValue {
            name: f.name,
            at: at.saturating_add(f.off),
            len: f.width,
            present,
            number: None,
            passes: true,
        };
    }
    let off: usize = f.off as usize;
    let width: usize = f.width as usize;
    let zero: bool = zeros_at(bytes, off, width);
    let wide: bool = f.width > 8;
    let value: u64 = if wide { 0 } else { number_at(bytes, off, width) };
    let passes: bool = f.check.test(value, wide, zero);
    FieldValue {
        name: f.name,
        at: at.saturating_add(f.off),
        len: f.width,
        present,
        number: if wide { None } else { Some(value) },
        passes,
    }
}

/// Read a record from bytes that were read at the context's base.
pub fn read_struct(desc: &StructDesc, bytes: &[u8], outcome: ReadOutcome, ctx: ReadCtx) -> (r:
    Record)
    ensures
        r@ == struct_of(
            desc.name@,
            desc.fields@,
            bytes@,
            outcome == ReadOutcome::Unreadable,
            ctx.base,
            ctx.region_base,
        ),
{
    let at: u64 = ctx.base;
    let mut fields: Vec<FieldValue> = Vec::new();
    let mut i: usize = 0;
    while i < desc.fields.len()
        invariant
            i <= desc.fields@.len(),
            fields@ =~= fields_of(desc.fields@, bytes@, at).take(i as int),
        decreases desc.fields@.len() - i,
    {
        fields.push(read_field(bytes, at, &desc.fields[i]));
        i += 1;
    }
    assert(fields@ =~= fields_of(desc.fields@, bytes@, at));
    Record {
        name: desc.name,
        at,
        region_base: ctx.region_base,
        unreadable: outcome == ReadOutcome::Unreadable,
        fields,
    }
}

/// Read a record at `at`. The context's base gives way to `at`: the two must agree,
/// or every offset in the result would be wrong.
pub fn read_desc_at<S: BlockSource>(src: &S, desc: &StructDesc, at: u64, ctx: ReadCtx) -> (r:
    Record)
    ensures
        r@ == record_of(
            src.device(),
            desc.name@,
            desc.size,
            desc.fields@,
            at,
            ctx.region_base,
        ),
{
    let (bytes, outcome) = src.read_vec(at, desc.size);
    read_struct(desc, &bytes, outcome, ReadCtx { base: at, region_base: ctx.region_base })
}

impl Record {
    /// How serious what the record says on its own is.
    pub fn status(&self) -> (r: Status)
        ensures
            r == self@.severity(),
    {
        if self.unreadable {
            Status::Unreadable
        } else if self.has_flaw() {
            Status::Bad
        } else {
            Status::Clean
        }
    }

    /// True when a field is there and fails its check.
    pub fn has_flaw(&self) -> (r: bool)
        ensures
            r == self@.flawed(),
    {
        let mut i: usize = 0;
        while i < self.fields.len()
            invariant
                i <= self.fields@.len(),
                forall|j: int| 0 <= j < i ==> (#[trigger] self.fields@[j]).passes,
            decreases self.fields@.len() - i,
        {
            if !self.fields[i].passes {
                assert(!self@.fields[i as int].passes);
                return true;
            }
            i += 1;
        }
        false
    }
}

} // verus!
