//! What reading an MBR can turn up.

use crate::status::Status;
use crate::text;
use crate::text::Text;
use vstd::prelude::*;

verus! {

/// Something worth telling about an MBR or an extended boot record.
#[derive(Clone, Copy, Debug, PartialEq, Eq, Structural)]
pub enum Finding {
    Leftover,
    ZeroLength,
    EndOverflow,
    PastDevice { end: u64, device_sectors: u64, sector_size: u64 },
    OddStatus { status: u64 },
    ProtectiveEntry,
    Overlap { other: u64, first: u64, end: u64, other_first: u64, other_end: u64 },
    Protective { num_sectors: u64, lba_first: u64 },
    ChainLoops { lba: u64 },
    ChainTooLong,
    EbrPastDevice,
    Resolved { relative: u64, ebr: u64, absolute: u64 },
    UnusedSlotDirty,
}

/// The findings that hold when `cond` does: one, or none.
pub open spec fn when(cond: bool, f: Finding) -> Seq<Finding> {
    if cond {
        seq![f]
    } else {
        Seq::empty()
    }
}

/// Record `f` when `cond` holds.
pub fn note(out: &mut Vec<Finding>, cond: bool, f: Finding)
    ensures
        final(out)@ == old(out)@ + when(cond, f),
{
    if cond {
        out.push(f);
    }
    assert(out@ =~= old(out)@ + when(cond, f));
}

/// The most serious of a list of findings.
pub open spec fn worst(findings: Seq<Finding>) -> Status
    decreases findings.len(),
{
    if findings.len() == 0 {
        Status::Clean
    } else {
        worst(findings.drop_last()).worse(findings.last().severity())
    }
}

/// The most serious of a list of findings.
pub fn worst_of(findings: &[Finding]) -> (r: Status)
    ensures
        r == worst(findings@),
{
    let mut r = Status::Clean;
    let mut i: usize = 0;
    while i < findings.len()
        invariant
            i <= findings@.len(),
            r == worst(findings@.take(i as int)),
        decreases findings@.len() - i,
    {
        assert(findings@.take(i + 1).drop_last() =~= findings@.take(i as int));
        r = r.merge(findings[i].status());
        i += 1;
    }
    assert(findings@.take(i as int) =~= findings@);
    r
}

impl Finding {
    /// How serious this finding is.
    pub open spec fn severity(self) -> Status {
        match self {
            Finding::Leftover
            | Finding::ProtectiveEntry
            | Finding::Protective { .. }
            | Finding::Resolved { .. } => Status::Info,
            Finding::ZeroLength
            | Finding::EndOverflow
            | Finding::PastDevice { .. }
            | Finding::Overlap { .. }
            | Finding::ChainLoops { .. }
            | Finding::ChainTooLong
            | Finding::EbrPastDevice => Status::Bad,
            Finding::OddStatus { .. }
            | Finding::UnusedSlotDirty => Status::Warn,
        }
    }

    /// How serious this finding is.
    pub fn status(&self) -> (r: Status)
        ensures
            r == self.severity(),
    {
        match *self {
            Finding::Leftover
            | Finding::ProtectiveEntry
            | Finding::Protective { .. }
            | Finding::Resolved { .. } => Status::Info,
            Finding::ZeroLength
            | Finding::EndOverflow
            | Finding::PastDevice { .. }
            | Finding::Overlap { .. }
            | Finding::ChainLoops { .. }
            | Finding::ChainTooLong
            | Finding::EbrPastDevice => Status::Bad,
            Finding::OddStatus { .. }
            | Finding::UnusedSlotDirty => Status::Warn,
        }
    }

    /// What was found, in words.
    pub open spec fn text(self) -> Seq<char> {
        match self {
            Finding::Leftover => "slot is unused but not zero"@,
            Finding::ZeroLength => "length is zero but the slot is in use"@,
            Finding::EndOverflow => "lba_first + num_sectors overflows 64 bits"@,
            Finding::PastDevice { end, device_sectors, sector_size } => "extends to LBA "@ + text::dec(end as int) + " but the device has only "@ + text::dec(device_sectors as int) + " sectors ("@ + text::dec(sector_size as int) + " byte sectors)"@,
            Finding::OddStatus { status } => "status "@ + text::hex(status as int, 2) + " is neither 0x00 nor 0x80"@,
            Finding::ProtectiveEntry => "GPT protective entry: the real partition table is the GPT, not this"@,
            Finding::Overlap { other, first, end, other_first, other_end } => "overlaps partition "@ + text::dec(other as int) + ": "@ + text::dec(first as int) + ".."@ + text::dec(end as int) + " vs "@ + text::dec(other_first as int) + ".."@ + text::dec(other_end as int),
            Finding::Protective { num_sectors, lba_first } => "protective MBR: one 0xEE entry covering "@ + text::dec(num_sectors as int) + " sectors from LBA "@ + text::dec(lba_first as int) + ". The real partition table is the GPT at LBA 1."@,
            Finding::ChainLoops { lba } => "EBR at LBA "@ + text::dec(lba as int) + " has already been visited; the chain is circular and traversal stopped here"@,
            Finding::ChainTooLong => "stopped after 128 extended boot records"@,
            Finding::EbrPastDevice => "extended boot record lies past the end of the device"@,
            Finding::Resolved { relative, ebr, absolute } => "relative LBA "@ + text::dec(relative as int) + " from EBR at LBA "@ + text::dec(ebr as int) + " = absolute LBA "@ + text::dec(absolute as int),
            Finding::UnusedSlotDirty => "an EBR must leave entries 2 and 3 zero"@,
        }
    }

    /// What was found, in words.
    pub fn message(&self) -> (r: String)
        ensures
            r@ == self.text(),
    {
        match *self {
            Finding::Leftover => Text::of("slot is unused but not zero").done(),
            Finding::ZeroLength => Text::of("length is zero but the slot is in use").done(),
            Finding::EndOverflow => Text::of("lba_first + num_sectors overflows 64 bits").done(),
            Finding::PastDevice { end, device_sectors, sector_size } => Text::of("extends to LBA ").dec(end).lit(" but the device has only ").dec(device_sectors).lit(" sectors (").dec(sector_size).lit(" byte sectors)").done(),
            Finding::OddStatus { status } => Text::of("status ").hex(status, 2).lit(" is neither 0x00 nor 0x80").done(),
            Finding::ProtectiveEntry => Text::of("GPT protective entry: the real partition table is the GPT, not this").done(),
            Finding::Overlap { other, first, end, other_first, other_end } => Text::of("overlaps partition ").dec(other).lit(": ").dec(first).lit("..").dec(end).lit(" vs ").dec(other_first).lit("..").dec(other_end).done(),
            Finding::Protective { num_sectors, lba_first } => Text::of("protective MBR: one 0xEE entry covering ").dec(num_sectors).lit(" sectors from LBA ").dec(lba_first).lit(". The real partition table is the GPT at LBA 1.").done(),
            Finding::ChainLoops { lba } => Text::of("EBR at LBA ").dec(lba).lit(" has already been visited; the chain is circular and traversal stopped here").done(),
            Finding::ChainTooLong => Text::of("stopped after 128 extended boot records").done(),
            Finding::EbrPastDevice => Text::of("extended boot record lies past the end of the device").done(),
            Finding::Resolved { relative, ebr, absolute } => Text::of("relative LBA ").dec(relative).lit(" from EBR at LBA ").dec(ebr).lit(" = absolute LBA ").dec(absolute).done(),
            Finding::UnusedSlotDirty => Text::of("an EBR must leave entries 2 and 3 zero").done(),
        }
    }

    /// What it means for the reader, where there is something to add.
    pub open spec fn advice(self) -> Option<Seq<char>> {
        match self {
            Finding::Leftover => Some("leftover bytes from a previous partition table"@),
            Finding::PastDevice { .. } => Some("either the table is wrong or the sector size is"@),
            Finding::Protective { .. } => Some("open the GPT at LBA 1 to see the real partition table"@),
            _ => None,
        }
    }

    /// What it means for the reader, where there is something to add.
    pub fn hint(&self) -> (r: Option<String>)
        ensures
            match r {
                Some(s) => self.advice() == Some(s@),
                None => self.advice() is None,
            },
    {
        match *self {
            Finding::Leftover => Some(Text::of("leftover bytes from a previous partition table").done()),
            Finding::PastDevice { .. } => Some(Text::of("either the table is wrong or the sector size is").done()),
            Finding::Protective { .. } => Some(Text::of("open the GPT at LBA 1 to see the real partition table").done()),
            _ => None,
        }
    }

}

} // verus!
