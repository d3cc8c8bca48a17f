//! How much each finding of a GPT weighs.

use crate::gpt::finding;
use crate::gpt::finding::Finding;
use crate::status::Status;
use vstd::prelude::*;

verus! {

/// Bad is what contradicts itself or leads nowhere.
pub proof fn lemma_what_is_bad(f: Finding)
    ensures
        f.severity() == Status::Bad <==> {
            ||| f is HeaderSizeSmall
            ||| f is HeaderSizeLarge
            ||| f is HeaderCrc
            ||| f is WrongLba
            ||| f is AlternateSelf
            ||| f is AlternatePast
            ||| f is UsableInverted
            ||| f is UsablePast
            ||| f is EntrySizeSmall
            ||| f is EntrySizeOdd
            ||| f is EntrySizeLarge
            ||| f is TooManyEntries
            ||| f is ArrayOverflow
            ||| f is ArrayPast
            ||| f is CrcOverflow
            ||| f is CrcPast
            ||| f is EntriesCrc
            ||| f is ArrayUnlocated
            ||| f is NoSectors
            ||| f is PastDevice
            ||| f is Overlap
            ||| f is MoreOverlaps
            ||| f is BackupPointsElsewhere
            ||| f is PrimaryPointsElsewhere
            ||| f is ArraysDiffer
            ||| f is NeitherSigned
            ||| f is PrimaryMissing
        },
{
}

/// A warning is what works and should not be so.
pub proof fn lemma_what_is_warn(f: Finding)
    ensures
        f.severity() == Status::Warn <==> {
            ||| f is NoAlternate
            ||| f is AlternateNotLast
            ||| f is DiskGuidZero
            ||| f is PaddingDirty
            ||| f is NoEntries
            ||| f is ArrayInUsable
            ||| f is CrcEmpty
            ||| f is CrcTooLarge
            ||| f is OutsideUsable
            ||| f is UniqueGuidZero
            ||| f is BackupArrayGap
            ||| f is BothWhole
            ||| f is NeitherWhole
            ||| f is MbrShort
            ||| f is MbrUnsigned
            ||| f is HybridMbr
            ||| f is NotProtected
            ||| f is ManyProtective
            ||| f is ProtectiveOdd
            ||| f is BackupMissing
        },
{
}

/// For information is what is as it may be.
pub proof fn lemma_what_is_info(f: Finding)
    ensures
        f.severity() == Status::Info <==> {
            ||| f is PaddingInside
            ||| f is Survivors
            ||| f is NameTail
            ||| f is ArraysIdentical
            ||| f is ArraysNotCompared
            ||| f is HeadersAgree
            ||| f is PrimaryWhole
            ||| f is BackupWhole
            ||| f is ProtectiveFine
        },
{
}

/// Unreadable is what the device refused.
pub proof fn lemma_what_is_unreadable(f: Finding)
    ensures
        f.severity() == Status::Unreadable <==> {
            ||| f is ArrayUnreadable
            ||| f is MbrUnreadable
        },
{
}

/// The worst of several findings is as bad as one of them and no better than any.
pub proof fn lemma_the_worst_of_several(all: Seq<Finding>, i: int)
    requires
        0 <= i < all.len(),
    ensures
        finding::worst(all).level() >= all[i].severity().level(),
        finding::worst(all) == Status::Clean || exists|k: int|
            0 <= k < all.len() && finding::worst(all) == (#[trigger] all[k]).severity(),
    decreases all.len(),
{
    let front = all.drop_last();
    assert(all[all.len() - 1] == all.last());
    if front.len() > 0 {
        lemma_the_worst_of_several(front, if i < front.len() { i } else { 0 });
        assert(i < front.len() ==> all[i] == front[i]);
        if finding::worst(front) != Status::Clean {
            let k = choose|k: int|
                0 <= k < front.len() && finding::worst(front) == (#[trigger] front[k]).severity();
            assert(all[k] == front[k]);
        }
    }
}

} // verus!
