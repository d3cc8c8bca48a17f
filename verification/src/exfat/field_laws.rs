//! When the records of this format are as they should be, said of their bytes.

use crate::bytes::number;
use crate::desc::struct_of;
use crate::exfat::desc;
use crate::record_laws;
use vstd::prelude::*;

verus! {

/// A boot sector starts with its jump and name and a run of zeroes, ends in its
/// signature, and has numbers in between that can be.
pub proof fn lemma_main_boot_sector_is_sound_exactly_when(b: Seq<u8>, at: u64, base: u64)
    requires
        b.len() == 512,
        at + 512 <= u64::MAX,
    ensures
        !struct_of("exFAT boot sector"@, desc::main_boot_sector_fields(), b, false, at, base).flawed() <==> {
            &&& number(b, 0, 3) == 0x9076EB
            &&& number(b, 3, 8) == 0x2020205441465845
            &&& forall|i: int| 11 <= i < 64 ==> #[trigger] b[i] == 0
            &&& number(b, 72, 8) != 0
            &&& 24 <= number(b, 80, 4) <= 0x00FF_FFFF
            &&& number(b, 84, 4) != 0
            &&& number(b, 88, 4) != 0
            &&& 9 <= b[108] <= 12
            &&& 0 <= b[109] <= 25
            &&& b[110] == 1 || b[110] == 2
            &&& number(b, 510, 2) == 0xAA55
        },
{
    let fields = desc::main_boot_sector_fields();
    let r = struct_of("exFAT boot sector"@, fields, b, false, at, base);
    let shown = r.fields;
    assert(shown.len() == 21);
    assert(shown[0].passes <==> { number(b, 0, 3) == 0x9076EB }) by {
        record_laws::lemma_fields_are_numbers(b, at, fields[0]);
    }
    assert(shown[1].passes <==> { number(b, 3, 8) == 0x2020205441465845 }) by {
        record_laws::lemma_fields_are_numbers(b, at, fields[1]);
    }
    assert(shown[2].passes <==> { forall|i: int| 11 <= i < 64 ==> #[trigger] b[i] == 0 }) by {
        let raw = b.subrange(11, 64);
        assert(forall|i: int| 11 <= i < 64 ==> #[trigger] b[i] == raw[i - 11]);
    }
    assert(shown[4].passes <==> { number(b, 72, 8) != 0 }) by {
        record_laws::lemma_fields_are_numbers(b, at, fields[4]);
    }
    assert(shown[5].passes <==> { 24 <= number(b, 80, 4) <= 0x00FF_FFFF }) by {
        record_laws::lemma_fields_are_numbers(b, at, fields[5]);
    }
    assert(shown[6].passes <==> { number(b, 84, 4) != 0 }) by {
        record_laws::lemma_fields_are_numbers(b, at, fields[6]);
    }
    assert(shown[7].passes <==> { number(b, 88, 4) != 0 }) by {
        record_laws::lemma_fields_are_numbers(b, at, fields[7]);
    }
    assert(shown[13].passes <==> { 9 <= b[108] <= 12 }) by {
        record_laws::lemma_fields_are_numbers(b, at, fields[13]);
        reveal_with_fuel(number, 2);
    }
    assert(shown[14].passes <==> { 0 <= b[109] <= 25 }) by {
        record_laws::lemma_fields_are_numbers(b, at, fields[14]);
        reveal_with_fuel(number, 2);
    }
    assert(shown[15].passes <==> { b[110] == 1 || b[110] == 2 }) by {
        record_laws::lemma_fields_are_numbers(b, at, fields[15]);
        reveal_with_fuel(number, 2);
    }
    assert(shown[20].passes <==> { number(b, 510, 2) == 0xAA55 }) by {
        record_laws::lemma_fields_are_numbers(b, at, fields[20]);
    }
    if r.flawed() {
        let k = choose|k: int| 0 <= k < shown.len() && !(#[trigger] shown[k]).passes;
        assert(k == 0 || k == 1 || k == 2 || k == 3 || k == 4 || k == 5 || k == 6 || k == 7 || k == 8 || k == 9 || k == 10 || k == 11 || k == 12 || k == 13 || k == 14 || k == 15 || k == 16 || k == 17 || k == 18 || k == 19 || k == 20);
    }
}

/// An extended boot sector ends in its signature.
pub proof fn lemma_ext_boot_sector_is_sound_exactly_when(b: Seq<u8>, at: u64, base: u64)
    requires
        b.len() == 512,
        at + 512 <= u64::MAX,
    ensures
        !struct_of("exFAT extended boot sector"@, desc::ext_boot_sector_fields(), b, false, at, base).flawed() <==> {
            &&& number(b, 508, 4) == 0xAA55_0000
        },
{
    let fields = desc::ext_boot_sector_fields();
    let r = struct_of("exFAT extended boot sector"@, fields, b, false, at, base);
    let shown = r.fields;
    assert(shown.len() == 2);
    assert(shown[1].passes <==> { number(b, 508, 4) == 0xAA55_0000 }) by {
        record_laws::lemma_fields_are_numbers(b, at, fields[1]);
    }
    if r.flawed() {
        let k = choose|k: int| 0 <= k < shown.len() && !(#[trigger] shown[k]).passes;
        assert(k == 0 || k == 1);
    }
}

/// A volume label has at most eleven characters.
pub proof fn lemma_volume_label_is_sound_exactly_when(b: Seq<u8>, at: u64, base: u64)
    requires
        b.len() == 32,
        at + 32 <= u64::MAX,
    ensures
        !struct_of("exFAT volume label entry"@, desc::volume_label_fields(), b, false, at, base).flawed() <==> {
            &&& 0 <= b[1] <= 11
        },
{
    let fields = desc::volume_label_fields();
    let r = struct_of("exFAT volume label entry"@, fields, b, false, at, base);
    let shown = r.fields;
    assert(shown.len() == 4);
    assert(shown[1].passes <==> { 0 <= b[1] <= 11 }) by {
        record_laws::lemma_fields_are_numbers(b, at, fields[1]);
        reveal_with_fuel(number, 2);
    }
    if r.flawed() {
        let k = choose|k: int| 0 <= k < shown.len() && !(#[trigger] shown[k]).passes;
        assert(k == 0 || k == 1 || k == 2 || k == 3);
    }
}

/// A file record has two to eighteen records behind it, and at most 199 hundredths of a
/// second.
pub proof fn lemma_file_entry_is_sound_exactly_when(b: Seq<u8>, at: u64, base: u64)
    requires
        b.len() == 32,
        at + 32 <= u64::MAX,
    ensures
        !struct_of("exFAT file entry"@, desc::file_entry_fields(), b, false, at, base).flawed() <==> {
            &&& 2 <= b[1] <= 18
            &&& 0 <= b[20] <= 199
            &&& 0 <= b[21] <= 199
        },
{
    let fields = desc::file_entry_fields();
    let r = struct_of("exFAT file entry"@, fields, b, false, at, base);
    let shown = r.fields;
    assert(shown.len() == 14);
    assert(shown[1].passes <==> { 2 <= b[1] <= 18 }) by {
        record_laws::lemma_fields_are_numbers(b, at, fields[1]);
        reveal_with_fuel(number, 2);
    }
    assert(shown[8].passes <==> { 0 <= b[20] <= 199 }) by {
        record_laws::lemma_fields_are_numbers(b, at, fields[8]);
        reveal_with_fuel(number, 2);
    }
    assert(shown[9].passes <==> { 0 <= b[21] <= 199 }) by {
        record_laws::lemma_fields_are_numbers(b, at, fields[9]);
        reveal_with_fuel(number, 2);
    }
    if r.flawed() {
        let k = choose|k: int| 0 <= k < shown.len() && !(#[trigger] shown[k]).passes;
        assert(k == 0 || k == 1 || k == 2 || k == 3 || k == 4 || k == 5 || k == 6 || k == 7 || k == 8 || k == 9 || k == 10 || k == 11 || k == 12 || k == 13);
    }
}

/// A stream extension gives a name length.
pub proof fn lemma_stream_extension_is_sound_exactly_when(b: Seq<u8>, at: u64, base: u64)
    requires
        b.len() == 32,
        at + 32 <= u64::MAX,
    ensures
        !struct_of("exFAT stream extension entry"@, desc::stream_extension_fields(), b, false, at, base).flawed() <==> {
            &&& 1 <= b[3] <= 255
        },
{
    let fields = desc::stream_extension_fields();
    let r = struct_of("exFAT stream extension entry"@, fields, b, false, at, base);
    let shown = r.fields;
    assert(shown.len() == 10);
    assert(shown[3].passes <==> { 1 <= b[3] <= 255 }) by {
        record_laws::lemma_fields_are_numbers(b, at, fields[3]);
        reveal_with_fuel(number, 2);
    }
    if r.flawed() {
        let k = choose|k: int| 0 <= k < shown.len() && !(#[trigger] shown[k]).passes;
        assert(k == 0 || k == 1 || k == 2 || k == 3 || k == 4 || k == 5 || k == 6 || k == 7 || k == 8 || k == 9);
    }
}

/// A volume GUID has no record behind it.
pub proof fn lemma_volume_guid_is_sound_exactly_when(b: Seq<u8>, at: u64, base: u64)
    requires
        b.len() == 32,
        at + 32 <= u64::MAX,
    ensures
        !struct_of("exFAT volume GUID entry"@, desc::volume_guid_fields(), b, false, at, base).flawed() <==> {
            &&& b[1] == 0
        },
{
    let fields = desc::volume_guid_fields();
    let r = struct_of("exFAT volume GUID entry"@, fields, b, false, at, base);
    let shown = r.fields;
    assert(shown.len() == 6);
    assert(shown[1].passes <==> { b[1] == 0 }) by {
        record_laws::lemma_fields_are_numbers(b, at, fields[1]);
        reveal_with_fuel(number, 2);
    }
    if r.flawed() {
        let k = choose|k: int| 0 <= k < shown.len() && !(#[trigger] shown[k]).passes;
        assert(k == 0 || k == 1 || k == 2 || k == 3 || k == 4 || k == 5);
    }
}

} // verus!
