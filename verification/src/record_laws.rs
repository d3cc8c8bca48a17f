//! What checksums, record fields and severities come down to.

use crate::bytes::number;
use crate::checksum;
use crate::checksum::ChecksumAlgo;
use crate::common;
use crate::desc;
use crate::desc::{Check, FieldDesc};
use crate::source;
use crate::status::Status;
use vstd::arithmetic::power2;
use vstd::prelude::*;

verus! {

// ----------------------------------------------------------------------- checksums

/// The rotating checksums turn the sum one bit to the right and add the byte, in 8, 16 and
/// 32 bits.
pub proof fn lemma_rotating_sums_rotate(a: u8, b: u16, c: u32, byte: u8)
    ensures
        checksum::rotate_add_step(a as int, byte, 0x80) == (((a >> 1) | (a << 7)) + byte) % 0x100,
        checksum::rotate_add_step(b as int, byte, 0x8000) == (((b >> 1) | (b << 15)) + byte) % 0x1_0000,
        checksum::rotate_add_step(c as int, byte, 0x8000_0000) == (((c >> 1) | (c << 31)) + byte)
            % 0x1_0000_0000,
{
    assert(((a >> 1) | (a << 7)) == a / 2 + (a % 2) * 0x80) by (bit_vector);
    assert(((b >> 1) | (b << 15)) == b / 2 + (b % 2) * 0x8000) by (bit_vector);
    assert(((c >> 1) | (c << 31)) == c / 2 + (c % 2) * 0x8000_0000) by (bit_vector);
}

/// One more byte is one more step, and a byte that is left out is none.
pub proof fn lemma_sums_go_byte_by_byte(data: Seq<u8>, byte: u8, left_out: Seq<(u64, u64)>, top: int)
    ensures
        checksum::rotate_add(Seq::empty(), left_out, top) == 0,
        checksum::rotate_add(data.push(byte), Seq::empty(), top) == checksum::rotate_add_step(
            checksum::rotate_add(data, Seq::empty(), top),
            byte,
            top,
        ),
        checksum::excluded(left_out, data.len() as int) ==> checksum::rotate_add(
            data.push(byte),
            left_out,
            top,
        ) == checksum::rotate_add(data, left_out, top),
        !checksum::excluded(left_out, data.len() as int) ==> checksum::rotate_add(
            data.push(byte),
            left_out,
            top,
        ) == checksum::rotate_add_step(checksum::rotate_add(data, left_out, top), byte, top),
{
    assert(data.push(byte).drop_last() =~= data);
    assert(!checksum::excluded(Seq::empty(), data.len() as int));
}

/// Which sum each format takes, and how wide it is.
pub proof fn lemma_which_sum_is_taken(data: Seq<u8>, left_out: Seq<(u64, u64)>)
    ensures
        ChecksumAlgo::FatShortName.value(data, left_out) == checksum::rotate_add(data, left_out, 0x80),
        ChecksumAlgo::ExfatEntrySet.value(data, left_out) == checksum::rotate_add(
            data,
            left_out,
            0x8000,
        ),
        ChecksumAlgo::ExfatBootRegion.value(data, left_out) == checksum::rotate_add(
            data,
            left_out,
            0x8000_0000,
        ),
        ChecksumAlgo::FatShortName.value(data, left_out) < 0x100,
        ChecksumAlgo::ExfatEntrySet.value(data, left_out) < 0x1_0000,
        ChecksumAlgo::ExfatBootRegion.value(data, left_out) < 0x1_0000_0000,
        ChecksumAlgo::Crc32.value(data, left_out) < 0x1_0000_0000,
{
    checksum::lemma_rotate_add_bound(data, left_out, 0x80);
    checksum::lemma_rotate_add_bound(data, left_out, 0x8000);
    checksum::lemma_rotate_add_bound(data, left_out, 0x8000_0000);
}

/// A step of the CRC-32 shifts the register right and folds the polynomial in when a one
/// fell out. The register starts and ends inverted.
pub proof fn lemma_crc_shifts_and_folds(c: u32)
    ensures
        checksum::crc32_bit(c) == (c >> 1) ^ (if c & 1 == 1 { 0xEDB8_8320u32 } else { 0 }),
        checksum::crc32(Seq::empty(), Seq::empty()) == 0,
{
    assert(c % 2 == 1 <==> c & 1 == 1) by (bit_vector);
    assert(c / 2 == c >> 1) by (bit_vector);
    let h = c >> 1;
    assert(h ^ 0 == h) by (bit_vector);
    assert(0xFFFF_FFFFu32 ^ 0xFFFF_FFFFu32 == 0) by (bit_vector);
    assert(checksum::crc32_register(Seq::empty(), Seq::empty()) == 0xFFFF_FFFF);
}

/// One more byte of a CRC-32 is folded into the low bits of the register and shifted
/// through, eight steps.
pub proof fn lemma_crc_goes_byte_by_byte(data: Seq<u8>, byte: u8)
    ensures
        checksum::crc32_register(data.push(byte), Seq::empty()) == ({
            let r = checksum::crc32_register(data, Seq::empty()) ^ (byte as u32);
            let s = checksum::crc32_bit(
                checksum::crc32_bit(checksum::crc32_bit(checksum::crc32_bit(r))),
            );
            checksum::crc32_bit(checksum::crc32_bit(checksum::crc32_bit(checksum::crc32_bit(s))))
        }),
        checksum::crc32(data, Seq::empty()) == checksum::crc32_register(data, Seq::empty())
            ^ 0xFFFF_FFFFu32,
{
    assert(data.push(byte).drop_last() =~= data);
    assert(!checksum::excluded(Seq::empty(), data.len() as int));
    reveal_with_fuel(checksum::crc32_bits, 9);
}

// -------------------------------------------------------------------------- fields

/// A field of a record is the number that its bytes spell, at its place. It passes when it
/// is missing or its check holds, and a record is flawed when a field does not pass.
pub proof fn lemma_fields_are_numbers(b: Seq<u8>, at: u64, f: FieldDesc)
    requires
        f.off + f.width <= b.len(),
        f.width <= 8,
        at + b.len() <= u64::MAX,
    ensures
        ({
            let v = desc::field_of(b, at, f);
            let n = number(b, f.off as int, f.width as nat);
            &&& v.present
            &&& v.at == at + f.off
            &&& v.len == f.width
            &&& v.number == Some(n as u64)
            &&& f.check == Check::Any ==> v.passes
            &&& f.check matches Check::Equal { value } ==> (v.passes <==> n == value)
            &&& f.check matches Check::OneOf { a, b } ==> (v.passes <==> n == a || n == b)
            &&& f.check matches Check::Range { lo, hi } ==> (v.passes <==> lo <= n <= hi)
            &&& f.check matches Check::OneOrRange { one, lo, hi } ==> (v.passes <==> n == one || lo <= n
                <= hi)
            &&& f.check == Check::NonZero ==> (v.passes <==> n != 0)
            &&& f.check == Check::AllZero ==> (v.passes <==> n == 0)
            &&& f.check matches Check::PowerOfTwo { lo, hi } ==> (v.passes <==> lo <= n <= hi && exists|
                k: nat,
            | n == #[trigger] power2::pow2(k))
        }),
        f.off + f.width > b.len() ==> desc::field_of(b, at, f).passes,
{
    let raw = desc::field_raw(b, f);
    lemma_le_number(b, f.off as int, f.width as nat);
    lemma_zero_number(b, f.off as int, f.width as nat);
    assert(b.subrange(f.off as int, f.off + f.width) == raw);
}

proof fn lemma_le_number(b: Seq<u8>, off: int, n: nat)
    requires
        0 <= off,
        off + n <= b.len(),
    ensures
        desc::le_number(b.subrange(off, off + n)) == number(b, off, n),
    decreases n,
{
    if n > 0 {
        lemma_le_number(b, off + 1, (n - 1) as nat);
        assert(b.subrange(off, off + n).skip(1) =~= b.subrange(off + 1, off + n));
    }
}

proof fn lemma_zero_number(b: Seq<u8>, off: int, n: nat)
    requires
        0 <= off,
        off + n <= b.len(),
    ensures
        number(b, off, n) >= 0,
        number(b, off, n) == 0 <==> desc::all_zero(b.subrange(off, off + n)),
    decreases n,
{
    let s = b.subrange(off, off + n);
    if n > 0 {
        lemma_zero_number(b, off + 1, (n - 1) as nat);
        let t = b.subrange(off + 1, off + n);
        assert(forall|i: int| 0 <= i < n - 1 ==> #[trigger] t[i] == s[i + 1]);
        if desc::all_zero(s) {
            assert(s[0] == 0);
        }
        if number(b, off, n) == 0 {
            assert forall|i: int| 0 <= i < s.len() implies #[trigger] s[i] == 0 by {
                if i > 0 {
                    assert(t[i - 1] == 0);
                }
            }
        }
    }
}

// ---------------------------------------------------------------------- severities

/// The worse of two severities is one of them and no better than either. They go from clean
/// over info, warn and bad to unreadable.
pub proof fn lemma_the_worse_of_two(a: Status, b: Status, c: Status)
    ensures
        a.worse(b) == a || a.worse(b) == b,
        a.worse(b).level() >= a.level(),
        a.worse(b).level() >= b.level(),
        a.worse(b) == b.worse(a),
        a.worse(b).worse(c) == a.worse(b.worse(c)),
        Status::Clean.worse(a) == a,
        Status::Unreadable.worse(a) == Status::Unreadable,
        Status::Clean.level() < Status::Info.level() < Status::Warn.level() < Status::Bad.level()
            < Status::Unreadable.level(),
{
}

// --------------------------------------------------------------------------- reads

/// A read from memory gives the bytes that are there, as many as were asked for or as there
/// are to the end, and says whether that was all.
pub proof fn lemma_reads_from_memory(bytes: Seq<u8>, at: u64, n: u64)
    ensures
        ({
            let r = source::clipped_read(bytes, at, n);
            let left = if at >= bytes.len() { 0 } else { bytes.len() - at };
            &&& r.data.len() == if n <= left { n as int } else { left }
            &&& forall|i: int| 0 <= i < r.data.len() ==> #[trigger] r.data[i] == bytes[at + i]
            &&& r.outcome is Full <==> r.data.len() == n
            &&& r.outcome is Short <==> r.data.len() < n
            &&& !r.refused()
        }),
{
}

/// Numbers are worked out in full: one that does not fit is refused or held at the top, never
/// wrapped.
pub proof fn lemma_numbers_never_wrap(x: int)
    requires
        x >= 0,
    ensures
        common::checked(x) is Some <==> x < 0x1_0000_0000_0000_0000,
        common::checked(x) matches Some(v) ==> v == x,
        common::saturated(x) == if x < 0x1_0000_0000_0000_0000 { x } else { 0xFFFF_FFFF_FFFF_FFFF },
{
}

} // verus!
