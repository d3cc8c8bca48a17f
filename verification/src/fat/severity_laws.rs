//! How much each finding of a FAT volume weighs.

use crate::fat::finding;
use crate::fat::finding::Finding;
use crate::status::Status;
use vstd::prelude::*;

verus! {

/// Bad is what contradicts itself or leads nowhere.
pub proof fn lemma_what_is_bad(f: Finding)
    ensures
        f.severity() == Status::Bad <==> {
            ||| f is SectorSize
            ||| f is ClusterSize
            ||| f is NoFatSize
            ||| f is NoVolumeSize
            ||| f is NoDataRegion
            ||| f is NoCluster
            ||| f is LayoutOverflow
            ||| f is RootEntriesZero
            ||| f is VolumePast16
            ||| f is VolumePast32
            ||| f is VolumeEndOverflow
            ||| f is RootClusterOutside
            ||| f is SignatureWrong
            ||| f is SignatureMissing
            ||| f is FsInfoOverflow
            ||| f is BackupOverflow
            ||| f is ContentsUnlocated
            ||| f is EntryOutside
            ||| f is FatBytesOverflow
            ||| f is FatPast
            ||| f is TablesDisagree
            ||| f is TablesDisagreeAtLeast
            ||| f is RootOutside
            ||| f is NoExtent
            ||| f is ClusterOutside
            ||| f is ChainOutside
            ||| f is ChainLoops
        },
{
}

/// A warning is what works and should not be so.
pub proof fn lemma_what_is_warn(f: Finding)
    ensures
        f.severity() == Status::Warn <==> {
            ||| f is BothTotals
            ||| f is FatSizeBoth
            ||| f is RootEntriesSet
            ||| f is MediaMismatch
            ||| f is FsTypeLies
            ||| f is NoBackupSector
            ||| f is FreeCountHigh
            ||| f is NextFreeOutside
            ||| f is BackupNone
            ||| f is BackupDiffers
            ||| f is VolumeDirty
            ||| f is BadEntry
            ||| f is ByteDiffers
            ||| f is NoLastBit
            ||| f is SplicedRun
            ||| f is SumAlien
            ||| f is AlienLongName
            ||| f is ChainUnknown
            ||| f is LabelWithCluster
            ||| f is ChainBad
            ||| f is ChainFree
            ||| f is ChainTruncated
        },
{
}

/// For information is what is as it may be.
pub proof fn lemma_what_is_info(f: Finding)
    ensures
        f.severity() == Status::Info <==> {
            ||| f is MirroringOff
            ||| f is BackupSame
            ||| f is OneFat
            ||| f is MediaEntry
            ||| f is SecondEntry
            ||| f is FreeEntry
            ||| f is EndEntry
            ||| f is TablesAgree
            ||| f is TablesAgreeSoFar
            ||| f is EndMarker
            ||| f is Residue
            ||| f is Orphan
            ||| f is Deleted
            ||| f is PastEnd
            ||| f is SequenceLost
            ||| f is SumRestorable
            ||| f is SumDestroyed
            ||| f is LongNameSurvives
            ||| f is FirstCharacter
            ||| f is ChainReleased
            ||| f is ChainKept
            ||| f is ChainEnds
        },
{
}

/// Unreadable is what the device refused.
pub proof fn lemma_what_is_unreadable(f: Finding)
    ensures
        f.severity() == Status::Unreadable <==> {
            ||| f is EntryUnreadable
            ||| f is CompareStopped
            ||| f is DirectoryUnreadable
            ||| f is ChainUnreadable
        },
{
}

/// The worst of several findings is as bad as one of them and no better than any.
pub proof fn lemma_the_worst_of_several(all: Seq<Finding>, i: int)
    requires
        0 <= i < all.len(),
    ensures
        finding::worst(all).level() >= all[i].severity().level(),
        finding::worst(all) == Status::Clean || exists|k: int|
            0 <= k < all.len() && finding::worst(all) == (#[trigger] all[k]).severity(),
    decreases all.len(),
{
    let front = all.drop_last();
    assert(all[all.len() - 1] == all.last());
    if front.len() > 0 {
        lemma_the_worst_of_several(front, if i < front.len() { i } else { 0 });
        assert(i < front.len() ==> all[i] == front[i]);
        if finding::worst(front) != Status::Clean {
            let k = choose|k: int|
                0 <= k < front.len() && finding::worst(front) == (#[trigger] front[k]).severity();
            assert(all[k] == front[k]);
        }
    }
}

} // verus!
