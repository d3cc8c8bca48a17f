//! When the records of this format are as they should be, said of their bytes.

use crate::bytes::number;
use crate::desc::struct_of;
use crate::fat::desc;
use crate::record_laws;
use vstd::arithmetic::power2;
use vstd::prelude::*;

verus! {

proof fn lemma_is_power(x: int)
    ensures
        0 < x <= 4096 ==> ((exists|k: nat| x == #[trigger] power2::pow2(k)) <==> x == 1 || x == 2 || x
            == 4 || x == 8 || x == 16 || x == 32 || x == 64 || x == 128 || x == 256 || x == 512 || x
            == 1024 || x == 2048 || x == 4096),
{
    power2::lemma2_to64();
    if 0 < x <= 4096 && exists|k: nat| x == #[trigger] power2::pow2(k) {
        let k = choose|k: nat| x == #[trigger] power2::pow2(k);
        if k > 12 {
            power2::lemma_pow2_strictly_increases(12, k);
        }
        assert(k == 0 || k == 1 || k == 2 || k == 3 || k == 4 || k == 5 || k == 6 || k == 7 || k == 8
            || k == 9 || k == 10 || k == 11 || k == 12);
    }
}

/// A BIOS parameter block has possible sector and cluster sizes, reserved sectors, one or
/// two FATs and a known media byte.
pub proof fn lemma_bpb_is_sound_exactly_when(b: Seq<u8>, at: u64, base: u64)
    requires
        b.len() == 36,
        at + 36 <= u64::MAX,
    ensures
        !struct_of("FAT BPB"@, desc::bpb_fields(), b, false, at, base).flawed() <==> {
            &&& number(b, 11, 2) == 512 || number(b, 11, 2) == 1024 || number(b, 11, 2) == 2048 || number(b, 11, 2) == 4096
            &&& b[13] == 1 || b[13] == 2 || b[13] == 4 || b[13] == 8 || b[13] == 16 || b[13] == 32 || b[13] == 64 || b[13] == 128
            &&& number(b, 14, 2) != 0
            &&& 1 <= b[16] <= 2
            &&& b[21] == 0xF0 || 0xF8 <= b[21] <= 0xFF
        },
{
    let fields = desc::bpb_fields();
    let r = struct_of("FAT BPB"@, fields, b, false, at, base);
    let shown = r.fields;
    assert(shown.len() == 14);
    assert(shown[2].passes <==> { number(b, 11, 2) == 512 || number(b, 11, 2) == 1024 || number(b, 11, 2) == 2048 || number(b, 11, 2) == 4096 }) by {
        record_laws::lemma_fields_are_numbers(b, at, fields[2]);
        lemma_is_power(number(b, 11, 2) as int);
    }
    assert(shown[3].passes <==> { b[13] == 1 || b[13] == 2 || b[13] == 4 || b[13] == 8 || b[13] == 16 || b[13] == 32 || b[13] == 64 || b[13] == 128 }) by {
        record_laws::lemma_fields_are_numbers(b, at, fields[3]);
        reveal_with_fuel(number, 2);
        lemma_is_power(b[13] as int);
    }
    assert(shown[4].passes <==> { number(b, 14, 2) != 0 }) by {
        record_laws::lemma_fields_are_numbers(b, at, fields[4]);
    }
    assert(shown[5].passes <==> { 1 <= b[16] <= 2 }) by {
        record_laws::lemma_fields_are_numbers(b, at, fields[5]);
        reveal_with_fuel(number, 2);
    }
    assert(shown[8].passes <==> { b[21] == 0xF0 || 0xF8 <= b[21] <= 0xFF }) by {
        record_laws::lemma_fields_are_numbers(b, at, fields[8]);
        reveal_with_fuel(number, 2);
    }
    if r.flawed() {
        let k = choose|k: int| 0 <= k < shown.len() && !(#[trigger] shown[k]).passes;
        assert(k == 0 || k == 1 || k == 2 || k == 3 || k == 4 || k == 5 || k == 6 || k == 7 || k == 8 || k == 9 || k == 10 || k == 11 || k == 12 || k == 13);
    }
}

/// A FAT32 extension has a FAT size, version 0, a drive number and an extended signature.
pub proof fn lemma_ebpb32_is_sound_exactly_when(b: Seq<u8>, at: u64, base: u64)
    requires
        b.len() == 54,
        at + 54 <= u64::MAX,
    ensures
        !struct_of("FAT32 EBPB"@, desc::ebpb32_fields(), b, false, at, base).flawed() <==> {
            &&& number(b, 0, 4) != 0
            &&& number(b, 6, 2) == 0
            &&& b[28] == 0x00 || b[28] == 0x80
            &&& b[30] == 0x28 || b[30] == 0x29
        },
{
    let fields = desc::ebpb32_fields();
    let r = struct_of("FAT32 EBPB"@, fields, b, false, at, base);
    let shown = r.fields;
    assert(shown.len() == 13);
    assert(shown[0].passes <==> { number(b, 0, 4) != 0 }) by {
        record_laws::lemma_fields_are_numbers(b, at, fields[0]);
    }
    assert(shown[2].passes <==> { number(b, 6, 2) == 0 }) by {
        record_laws::lemma_fields_are_numbers(b, at, fields[2]);
    }
    assert(shown[7].passes <==> { b[28] == 0x00 || b[28] == 0x80 }) by {
        record_laws::lemma_fields_are_numbers(b, at, fields[7]);
        reveal_with_fuel(number, 2);
    }
    assert(shown[9].passes <==> { b[30] == 0x28 || b[30] == 0x29 }) by {
        record_laws::lemma_fields_are_numbers(b, at, fields[9]);
        reveal_with_fuel(number, 2);
    }
    if r.flawed() {
        let k = choose|k: int| 0 <= k < shown.len() && !(#[trigger] shown[k]).passes;
        assert(k == 0 || k == 1 || k == 2 || k == 3 || k == 4 || k == 5 || k == 6 || k == 7 || k == 8 || k == 9 || k == 10 || k == 11 || k == 12);
    }
}

/// A FAT12 or FAT16 extension has a drive number and an extended signature.
pub proof fn lemma_ebpb16_is_sound_exactly_when(b: Seq<u8>, at: u64, base: u64)
    requires
        b.len() == 26,
        at + 26 <= u64::MAX,
    ensures
        !struct_of("FAT12/16 EBPB"@, desc::ebpb16_fields(), b, false, at, base).flawed() <==> {
            &&& b[0] == 0x00 || b[0] == 0x80
            &&& b[2] == 0x28 || b[2] == 0x29
        },
{
    let fields = desc::ebpb16_fields();
    let r = struct_of("FAT12/16 EBPB"@, fields, b, false, at, base);
    let shown = r.fields;
    assert(shown.len() == 6);
    assert(shown[0].passes <==> { b[0] == 0x00 || b[0] == 0x80 }) by {
        record_laws::lemma_fields_are_numbers(b, at, fields[0]);
        reveal_with_fuel(number, 2);
    }
    assert(shown[2].passes <==> { b[2] == 0x28 || b[2] == 0x29 }) by {
        record_laws::lemma_fields_are_numbers(b, at, fields[2]);
        reveal_with_fuel(number, 2);
    }
    if r.flawed() {
        let k = choose|k: int| 0 <= k < shown.len() && !(#[trigger] shown[k]).passes;
        assert(k == 0 || k == 1 || k == 2 || k == 3 || k == 4 || k == 5);
    }
}

/// A free-space sector has its three signatures.
pub proof fn lemma_fsinfo_is_sound_exactly_when(b: Seq<u8>, at: u64, base: u64)
    requires
        b.len() == 512,
        at + 512 <= u64::MAX,
    ensures
        !struct_of("FAT32 FSInfo"@, desc::fsinfo_fields(), b, false, at, base).flawed() <==> {
            &&& number(b, 0, 4) == 0x4161_5252
            &&& number(b, 484, 4) == 0x6141_7272
            &&& number(b, 508, 4) == 0xAA55_0000
        },
{
    let fields = desc::fsinfo_fields();
    let r = struct_of("FAT32 FSInfo"@, fields, b, false, at, base);
    let shown = r.fields;
    assert(shown.len() == 7);
    assert(shown[0].passes <==> { number(b, 0, 4) == 0x4161_5252 }) by {
        record_laws::lemma_fields_are_numbers(b, at, fields[0]);
    }
    assert(shown[2].passes <==> { number(b, 484, 4) == 0x6141_7272 }) by {
        record_laws::lemma_fields_are_numbers(b, at, fields[2]);
    }
    assert(shown[6].passes <==> { number(b, 508, 4) == 0xAA55_0000 }) by {
        record_laws::lemma_fields_are_numbers(b, at, fields[6]);
    }
    if r.flawed() {
        let k = choose|k: int| 0 <= k < shown.len() && !(#[trigger] shown[k]).passes;
        assert(k == 0 || k == 1 || k == 2 || k == 3 || k == 4 || k == 5 || k == 6);
    }
}

/// A directory entry has at most 199 hundredths of a second.
pub proof fn lemma_dir_entry_is_sound_exactly_when(b: Seq<u8>, at: u64, base: u64)
    requires
        b.len() == 32,
        at + 32 <= u64::MAX,
    ensures
        !struct_of("FAT directory entry"@, desc::dir_entry_fields(), b, false, at, base).flawed() <==> {
            &&& 0 <= b[13] <= 199
        },
{
    let fields = desc::dir_entry_fields();
    let r = struct_of("FAT directory entry"@, fields, b, false, at, base);
    let shown = r.fields;
    assert(shown.len() == 12);
    assert(shown[3].passes <==> { 0 <= b[13] <= 199 }) by {
        record_laws::lemma_fields_are_numbers(b, at, fields[3]);
        reveal_with_fuel(number, 2);
    }
    if r.flawed() {
        let k = choose|k: int| 0 <= k < shown.len() && !(#[trigger] shown[k]).passes;
        assert(k == 0 || k == 1 || k == 2 || k == 3 || k == 4 || k == 5 || k == 6 || k == 7 || k == 8 || k == 9 || k == 10 || k == 11);
    }
}

/// A fragment has the attributes of one, type 0 and no cluster.
pub proof fn lemma_lfn_entry_is_sound_exactly_when(b: Seq<u8>, at: u64, base: u64)
    requires
        b.len() == 32,
        at + 32 <= u64::MAX,
    ensures
        !struct_of("FAT long-filename entry"@, desc::lfn_entry_fields(), b, false, at, base).flawed() <==> {
            &&& b[11] == 0x0F
            &&& b[12] == 0
            &&& number(b, 26, 2) == 0
        },
{
    let fields = desc::lfn_entry_fields();
    let r = struct_of("FAT long-filename entry"@, fields, b, false, at, base);
    let shown = r.fields;
    assert(shown.len() == 8);
    assert(shown[2].passes <==> { b[11] == 0x0F }) by {
        record_laws::lemma_fields_are_numbers(b, at, fields[2]);
        reveal_with_fuel(number, 2);
    }
    assert(shown[3].passes <==> { b[12] == 0 }) by {
        record_laws::lemma_fields_are_numbers(b, at, fields[3]);
        reveal_with_fuel(number, 2);
    }
    assert(shown[6].passes <==> { number(b, 26, 2) == 0 }) by {
        record_laws::lemma_fields_are_numbers(b, at, fields[6]);
    }
    if r.flawed() {
        let k = choose|k: int| 0 <= k < shown.len() && !(#[trigger] shown[k]).passes;
        assert(k == 0 || k == 1 || k == 2 || k == 3 || k == 4 || k == 5 || k == 6 || k == 7);
    }
}

} // verus!
