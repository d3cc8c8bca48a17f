//! How much each finding of an exFAT volume weighs.

use crate::exfat::finding;
use crate::exfat::finding::Finding;
use crate::status::Status;
use vstd::prelude::*;

verus! {

/// Bad is what contradicts itself or leads nowhere.
pub proof fn lemma_what_is_bad(f: Finding)
    ensures
        f.severity() == Status::Bad <==> {
            ||| f is SectorShift
            ||| f is ClusterShift
            ||| f is ClusterSize
            ||| f is NoBitmapEntry
            ||| f is NoUpcaseEntry
            ||| f is GeometryUnusable
            ||| f is GeometryFallback
            ||| f is BootRegionOverflow
            ||| f is ExtSignature
            ||| f is ChecksumOverflow
            ||| f is BootChecksum
            ||| f is RepetitionsDiffer
            ||| f is BackupOverflow
            ||| f is BootFieldDiffers
            ||| f is VolumePastDevice
            ||| f is VolumeLengthOverflow
            ||| f is FatTooShort
            ||| f is HeapOverlapsFats
            ||| f is TooManyClusters
            ||| f is HeapPastVolume
            ||| f is NoClusters
            ||| f is RootOutsideHeap
            ||| f is ActiveFatMissing
            ||| f is FatOffsetOverflow
            ||| f is MediaEntry
            ||| f is ReservedEntry
            ||| f is EntryOutsideHeap
            ||| f is FirstClusterOutside
            ||| f is ContiguousPastHeap
            ||| f is ActiveFatOverflow
            ||| f is ChainLoops
            ||| f is ChainTooLong
            ||| f is ChainNoEnd
            ||| f is ChainLeavesHeap
            ||| f is NoClustersResolved
            ||| f is SetTruncated
            ||| f is TooFewSecondaries
            ||| f is NoStream
            ||| f is SetChecksumMismatch
            ||| f is BitmapLength
            ||| f is BitmapUnreadable
            ||| f is ComputedDiffers
            ||| f is UpcaseMismatch
        },
{
}

/// For information is what is as it may be.
pub proof fn lemma_what_is_info(f: Finding)
    ensures
        f.severity() == Status::Info <==> {
            ||| f is NoVolumeLabel
            ||| f is OemUnset
            ||| f is OemNull
            ||| f is RepetitionsAgree
            ||| f is RegionsIdentical
            ||| f is BootFieldDrifts
            ||| f is PartitionOffsetUnset
            ||| f is InactiveFat
            ||| f is MoreFatEntries
            ||| f is Contiguous
            ||| f is EndMarker
            ||| f is ZeroSlots
            ||| f is NotInUseShown
            ||| f is EntryDeleted
            ||| f is NothingSurvives
            ||| f is SetIntact
            ||| f is SetDeleted
            ||| f is NameResidue
            ||| f is NameHashUnverified
            ||| f is UnwrittenTail
            ||| f is DeletedSetChecksum
            ||| f is RunsHighlighted
            ||| f is DeletedDirectory
            ||| f is PercentDisagrees
            ||| f is AllocatedWithoutChain
            ||| f is BitmapAgrees
            ||| f is UpcaseMatches
        },
{
}

/// Unreadable is what the device refused.
pub proof fn lemma_what_is_unreadable(f: Finding)
    ensures
        f.severity() == Status::Unreadable <==> {
            ||| f is RecordUnreadable
            ||| f is ChecksumUnreadable
            ||| f is RegionUnreadable
            ||| f is FatUnreadable
            ||| f is FatEntriesUnreadable
            ||| f is ChainUnreadable
            ||| f is RunUnreadable
            ||| f is RunShort
            ||| f is CrosscheckUnreadable
        },
{
}

/// A warning is what works and should not be so.
pub proof fn lemma_what_is_warn(f: Finding)
    ensures
        f.severity() == Status::Warn <==> {
            ||| f is ExtShort
            ||| f is ReservedSectorDirty
            ||| f is BootRegionShort
            ||| f is RegionLengths
            ||| f is RegionsDiffer
            ||| f is PartitionOffsetMoved
            ||| f is UnknownRevision
            ||| f is PercentInvalid
            ||| f is ReservedVolumeFlags
            ||| f is VolumeDirty
            ||| f is MediaFailure
            ||| f is BadCluster
            ||| f is FatEndsBefore
            ||| f is ChainsToBad
            ||| f is ChainLength
            ||| f is DirectoryTruncated
            ||| f is ResidueSurvives
            ||| f is ResidueRecord
            ||| f is LoneSecondary
            ||| f is SetOverwritten
            ||| f is MixedUse
            ||| f is NameEntries
            ||| f is NameHash
            ||| f is ValidPastLength
            ||| f is AllocationImpossible
            ||| f is NestingLimit
            ||| f is CrosscheckOverflow
            ||| f is ChainedButFree
            ||| f is UpcaseTooLong
            ||| f is UpcaseShort
            ||| f is EmptyTable
        },
{
}

/// The worst of several findings is as bad as one of them and no better than any.
pub proof fn lemma_the_worst_of_several(all: Seq<Finding>, i: int)
    requires
        0 <= i < all.len(),
    ensures
        finding::worst(all).level() >= all[i].severity().level(),
        finding::worst(all) == Status::Clean || exists|k: int|
            0 <= k < all.len() && finding::worst(all) == (#[trigger] all[k]).severity(),
    decreases all.len(),
{
    let front = all.drop_last();
    assert(all[all.len() - 1] == all.last());
    if front.len() > 0 {
        lemma_the_worst_of_several(front, if i < front.len() { i } else { 0 });
        assert(i < front.len() ==> all[i] == front[i]);
        if finding::worst(front) != Status::Clean {
            let k = choose|k: int|
                0 <= k < front.len() && finding::worst(front) == (#[trigger] front[k]).severity();
            assert(all[k] == front[k]);
        }
    }
}

} // verus!
