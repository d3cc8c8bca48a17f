//! On-disk format knowledge: MBR, GPT, FAT and exFAT.
//!
//! Every format module is two halves. A `desc` module holds record layouts as
//! data; the rest is traversal: geometry, chains, arrays and the invariants that
//! span records. Nothing here touches files or terminals: bytes arrive through
//! [`source::BlockSource`], and what is found leaves as plain values.

pub mod bytes;
pub mod checksum;
pub mod common;
pub mod desc;
pub mod exfat;
pub mod extent;
pub mod fat;
pub mod gpt;
pub mod mbr;
pub mod record_laws;
pub mod registry;
pub mod runs;
pub mod scrub;
pub mod scrub_laws;
pub mod source;
pub mod status;
pub mod text;
pub mod text_laws;

use crate::desc::StructDesc;
use crate::registry::{Format, Registry};
use vstd::prelude::*;

verus! {

/// A registry with every format.
pub fn registry() -> (r: Registry)
    ensures
        r@ == seq![Format::Mbr, Format::Gpt, Format::Fat, Format::Exfat],
{
    let mut r = Registry::new();
    mbr::register(&mut r);
    gpt::register(&mut r);
    fat::register(&mut r);
    exfat::register(&mut r);
    assert(r@ =~= seq![Format::Mbr, Format::Gpt, Format::Fat, Format::Exfat]);
    r
}

/// Every record layout, each of which tiles its record exactly.
pub fn all_descriptors() -> (r: Vec<StructDesc>)
    ensures
        desc::models(r@) == mbr::desc::layouts() + gpt::desc::layouts() + fat::desc::layouts()
            + exfat::desc::layouts(),
        desc::all_tile(r@),
{
    let mut r: Vec<StructDesc> = mbr::desc::all();
    let mut more: Vec<StructDesc> = gpt::desc::all();
    add_layouts(&mut r, &mut more);
    let mut more: Vec<StructDesc> = fat::desc::all();
    add_layouts(&mut r, &mut more);
    let mut more: Vec<StructDesc> = exfat::desc::all();
    add_layouts(&mut r, &mut more);
    r
}

fn add_layouts(all: &mut Vec<StructDesc>, more: &mut Vec<StructDesc>)
    requires
        desc::all_tile(old(all)@),
        desc::all_tile(old(more)@),
    ensures
        desc::models(final(all)@) == desc::models(old(all)@) + desc::models(old(more)@),
        desc::all_tile(final(all)@),
{
    let ghost a = all@;
    let ghost b = more@;
    all.append(more);
    assert(desc::models(all@) =~= desc::models(a) + desc::models(b));
    assert forall|i: int| 0 <= i < all@.len() implies (#[trigger] all@[i]).tiles() by {
        if i < a.len() {
            assert(a[i].tiles());
        } else {
            assert(b[i - a.len()].tiles());
        }
    }
}

} // verus!
