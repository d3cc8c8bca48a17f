//! How much each finding of an MBR weighs.

use crate::mbr::finding;
use crate::mbr::finding::Finding;
use crate::status::Status;
use vstd::prelude::*;

verus! {

/// For information is what is as it may be.
pub proof fn lemma_what_is_info(f: Finding)
    ensures
        f.severity() == Status::Info <==> {
            ||| f is Leftover
            ||| f is ProtectiveEntry
            ||| f is Protective
            ||| f is Resolved
        },
{
}

/// Bad is what contradicts itself or leads nowhere.
pub proof fn lemma_what_is_bad(f: Finding)
    ensures
        f.severity() == Status::Bad <==> {
            ||| f is ZeroLength
            ||| f is EndOverflow
            ||| f is PastDevice
            ||| f is Overlap
            ||| f is ChainLoops
            ||| f is ChainTooLong
            ||| f is EbrPastDevice
        },
{
}

/// A warning is what works and should not be so.
pub proof fn lemma_what_is_warn(f: Finding)
    ensures
        f.severity() == Status::Warn <==> {
            ||| f is OddStatus
            ||| f is UnusedSlotDirty
        },
{
}

/// The worst of several findings is as bad as one of them and no better than any.
pub proof fn lemma_the_worst_of_several(all: Seq<Finding>, i: int)
    requires
        0 <= i < all.len(),
    ensures
        finding::worst(all).level() >= all[i].severity().level(),
        finding::worst(all) == Status::Clean || exists|k: int|
            0 <= k < all.len() && finding::worst(all) == (#[trigger] all[k]).severity(),
    decreases all.len(),
{
    let front = all.drop_last();
    assert(all[all.len() - 1] == all.last());
    if front.len() > 0 {
        lemma_the_worst_of_several(front, if i < front.len() { i } else { 0 });
        assert(i < front.len() ==> all[i] == front[i]);
        if finding::worst(front) != Status::Clean {
            let k = choose|k: int|
                0 <= k < front.len() && finding::worst(front) == (#[trigger] front[k]).severity();
            assert(all[k] == front[k]);
        }
    }
}

} // verus!
