//! When the records of this format are as they should be, said of their bytes.

use crate::bytes::number;
use crate::desc::struct_of;
use crate::mbr::desc;
use crate::record_laws;
use vstd::prelude::*;

verus! {

/// A partition entry has a status of inactive or active.
pub proof fn lemma_part_entry_is_sound_exactly_when(b: Seq<u8>, at: u64, base: u64)
    requires
        b.len() == 16,
        at + 16 <= u64::MAX,
    ensures
        !struct_of("partition entry"@, desc::part_entry_fields(), b, false, at, base).flawed() <==> {
            &&& b[0] == 0x00 || b[0] == 0x80
        },
{
    let fields = desc::part_entry_fields();
    let r = struct_of("partition entry"@, fields, b, false, at, base);
    let shown = r.fields;
    assert(shown.len() == 6);
    assert(shown[0].passes <==> { b[0] == 0x00 || b[0] == 0x80 }) by {
        record_laws::lemma_fields_are_numbers(b, at, fields[0]);
        reveal_with_fuel(number, 2);
    }
    if r.flawed() {
        let k = choose|k: int| 0 <= k < shown.len() && !(#[trigger] shown[k]).passes;
        assert(k == 0 || k == 1 || k == 2 || k == 3 || k == 4 || k == 5);
    }
}

/// A boot record ends in its signature.
pub proof fn lemma_mbr_header_is_sound_exactly_when(b: Seq<u8>, at: u64, base: u64)
    requires
        b.len() == 512,
        at + 512 <= u64::MAX,
    ensures
        !struct_of("MBR"@, desc::mbr_header_fields(), b, false, at, base).flawed() <==> {
            &&& number(b, 510, 2) == 0xAA55
        },
{
    let fields = desc::mbr_header_fields();
    let r = struct_of("MBR"@, fields, b, false, at, base);
    let shown = r.fields;
    assert(shown.len() == 5);
    assert(shown[4].passes <==> { number(b, 510, 2) == 0xAA55 }) by {
        record_laws::lemma_fields_are_numbers(b, at, fields[4]);
    }
    if r.flawed() {
        let k = choose|k: int| 0 <= k < shown.len() && !(#[trigger] shown[k]).passes;
        assert(k == 0 || k == 1 || k == 2 || k == 3 || k == 4);
    }
}

/// An extended boot record ends in the same signature.
pub proof fn lemma_ebr_header_is_sound_exactly_when(b: Seq<u8>, at: u64, base: u64)
    requires
        b.len() == 512,
        at + 512 <= u64::MAX,
    ensures
        !struct_of("EBR"@, desc::ebr_header_fields(), b, false, at, base).flawed() <==> {
            &&& number(b, 510, 2) == 0xAA55
        },
{
    let fields = desc::ebr_header_fields();
    let r = struct_of("EBR"@, fields, b, false, at, base);
    let shown = r.fields;
    assert(shown.len() == 5);
    assert(shown[4].passes <==> { number(b, 510, 2) == 0xAA55 }) by {
        record_laws::lemma_fields_are_numbers(b, at, fields[4]);
    }
    if r.flawed() {
        let k = choose|k: int| 0 <= k < shown.len() && !(#[trigger] shown[k]).passes;
        assert(k == 0 || k == 1 || k == 2 || k == 3 || k == 4);
    }
}

} // verus!
