//! When the records of this format are as they should be, said of their bytes.

use crate::bytes::number;
use crate::desc::struct_of;
use crate::gpt::desc;
use crate::record_laws;
use vstd::prelude::*;

verus! {

/// A GPT header has its signature, revision 1.0, and sizes of header and entry that can
/// be.
pub proof fn lemma_gpt_header_is_sound_exactly_when(b: Seq<u8>, at: u64, base: u64)
    requires
        b.len() == 92,
        at + 92 <= u64::MAX,
    ensures
        !struct_of("GPT header"@, desc::gpt_header_fields(), b, false, at, base).flawed() <==> {
            &&& number(b, 0, 8) == 0x5452415020494645
            &&& number(b, 8, 4) == 0x0001_0000
            &&& 92 <= number(b, 12, 4) <= 4096
            &&& 128 <= number(b, 84, 4) <= 4096
        },
{
    let fields = desc::gpt_header_fields();
    let r = struct_of("GPT header"@, fields, b, false, at, base);
    let shown = r.fields;
    assert(shown.len() == 14);
    assert(shown[0].passes <==> { number(b, 0, 8) == 0x5452415020494645 }) by {
        record_laws::lemma_fields_are_numbers(b, at, fields[0]);
    }
    assert(shown[1].passes <==> { number(b, 8, 4) == 0x0001_0000 }) by {
        record_laws::lemma_fields_are_numbers(b, at, fields[1]);
    }
    assert(shown[2].passes <==> { 92 <= number(b, 12, 4) <= 4096 }) by {
        record_laws::lemma_fields_are_numbers(b, at, fields[2]);
    }
    assert(shown[12].passes <==> { 128 <= number(b, 84, 4) <= 4096 }) by {
        record_laws::lemma_fields_are_numbers(b, at, fields[12]);
    }
    if r.flawed() {
        let k = choose|k: int| 0 <= k < shown.len() && !(#[trigger] shown[k]).passes;
        assert(k == 0 || k == 1 || k == 2 || k == 3 || k == 4 || k == 5 || k == 6 || k == 7 || k == 8 || k == 9 || k == 10 || k == 11 || k == 12 || k == 13);
    }
}

} // verus!
