//! The 64 attribute bits of a partition entry.
//!
//! Naming every one of them is what turns a number into a readable row, and what makes
//! a stray reserved bit a finding instead of a number nobody reads.

use vstd::arithmetic::power2::pow2;
use vstd::prelude::*;

verus! {

/// One attribute bit.
#[derive(Clone, Copy, Debug)]
pub struct AttributeBit {
    pub bit: u32,
    pub name: &'static str,
    /// Required to be zero.
    pub reserved: bool,
}

/// What attribute bit `bit` is. Bits 3 to 47 are reserved; from bit 48 on, a bit is
/// meaningful only once the partition's type is known.
pub open spec fn bit_of(bit: u32) -> AttributeBit {
    match bit {
        0 => AttributeBit { bit, name: "required_partition", reserved: false },
        1 => AttributeBit { bit, name: "no_block_io_protocol", reserved: false },
        2 => AttributeBit { bit, name: "legacy_bios_bootable", reserved: false },
        60 => AttributeBit { bit, name: "read_only", reserved: false },
        61 => AttributeBit { bit, name: "shadow_copy", reserved: false },
        62 => AttributeBit { bit, name: "hidden", reserved: false },
        63 => AttributeBit { bit, name: "no_automount", reserved: false },
        _ => if bit < 48 {
            AttributeBit { bit, name: "reserved", reserved: true }
        } else {
            AttributeBit { bit, name: "type_specific", reserved: false }
        },
    }
}

fn attribute_bit(bit: u32) -> (r: AttributeBit)
    ensures
        r == bit_of(bit),
{
    match bit {
        0 => AttributeBit { bit, name: "required_partition", reserved: false },
        1 => AttributeBit { bit, name: "no_block_io_protocol", reserved: false },
        2 => AttributeBit { bit, name: "legacy_bios_bootable", reserved: false },
        60 => AttributeBit { bit, name: "read_only", reserved: false },
        61 => AttributeBit { bit, name: "shadow_copy", reserved: false },
        62 => AttributeBit { bit, name: "hidden", reserved: false },
        63 => AttributeBit { bit, name: "no_automount", reserved: false },
        _ => if bit < 48 {
            AttributeBit { bit, name: "reserved", reserved: true }
        } else {
            AttributeBit { bit, name: "type_specific", reserved: false }
        },
    }
}

/// Every attribute bit, each exactly once and in order. Bits 3 to 47 are reserved and
/// nothing else is.
pub fn entry_attributes() -> (r: Vec<AttributeBit>)
    ensures
        r@.len() == 64,
        forall|i: int|
            0 <= i < 64 ==> #[trigger] r@[i] == bit_of(i as u32) && r@[i].bit == i && (
            r@[i].reserved <==> 3 <= i <= 47),
{
    let mut r: Vec<AttributeBit> = Vec::new();
    let mut bit: u32 = 0;
    while bit < 64
        invariant
            bit <= 64,
            r@.len() == bit,
            forall|i: int| 0 <= i < bit ==> #[trigger] r@[i] == bit_of(i as u32),
        decreases 64 - bit,
    {
        r.push(attribute_bit(bit));
        bit += 1;
    }
    r
}

/// Bit `bit` of the attributes is set.
pub open spec fn is_set(attributes: u64, bit: u32) -> bool {
    attributes as int / pow2(bit as nat) as int % 2 == 1
}

/// Test one bit of the attributes.
pub fn bit_is_set(attributes: u64, bit: u32) -> (r: bool)
    requires
        bit < 64,
    ensures
        r == is_set(attributes, bit),
{
    proof {
        vstd::bits::lemma_u64_shr_is_div(attributes, bit as u64);
        vstd::arithmetic::power2::lemma_pow2_pos(bit as nat);
    }
    (attributes >> (bit as u64)) % 2 == 1
}

/// A reserved bit is set.
pub open spec fn stray(attributes: u64) -> bool {
    exists|bit: u32| 3 <= bit <= 47 && #[trigger] is_set(attributes, bit)
}

/// True when a reserved bit is set.
pub fn has_stray(attributes: u64) -> (r: bool)
    ensures
        r == stray(attributes),
{
    let mut bit: u32 = 3;
    while bit < 48
        invariant
            3 <= bit <= 48,
            forall|b: u32| 3 <= b < bit ==> !#[trigger] is_set(attributes, b),
        decreases 48 - bit,
    {
        if bit_is_set(attributes, bit) {
            assert(is_set(attributes, bit));
            return true;
        }
        bit += 1;
    }
    false
}

} // verus!
