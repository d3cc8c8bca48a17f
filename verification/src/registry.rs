//! Which formats there are, and the one way to ask each of them.

use crate::exfat::volume;
use crate::exfat::ExfatProbe;
use crate::fat::FatProbe;
use crate::gpt::GptProbe;
use crate::mbr::MbrProbe;
use crate::source::{BlockSource, Device};
use vstd::prelude::*;

verus! {

/// A format that can be looked for.
#[derive(Clone, Copy, Debug, PartialEq, Eq, Structural)]
pub enum Format {
    Mbr,
    Gpt,
    Fat,
    Exfat,
}

impl Format {
    /// How sure the bytes at `at` make one that this format is there.
    pub open spec fn score(self, dev: Device, at: u64) -> int {
        match self {
            Format::Mbr => crate::mbr::reader::score_of(dev, at),
            Format::Gpt => crate::gpt::reader::score_of(dev, at),
            Format::Fat => crate::fat::volume::score_of(dev, at),
            Format::Exfat => volume::score_of(dev, at),
        }
    }

    /// The identifier of the format.
    pub open spec fn ident(self) -> &'static str {
        match self {
            Format::Mbr => "mbr",
            Format::Gpt => "gpt",
            Format::Fat => "fat",
            Format::Exfat => "exfat",
        }
    }

    /// The identifier of the format.
    pub fn id(&self) -> (r: &'static str)
        ensures
            r@ == self.ident()@,
    {
        match *self {
            Format::Mbr => MbrProbe.id(),
            Format::Gpt => GptProbe.id(),
            Format::Fat => FatProbe.id(),
            Format::Exfat => ExfatProbe.id(),
        }
    }

    /// What the format is called.
    pub fn name(&self) -> (r: &'static str)
        ensures
            r@ == match *self {
                Format::Mbr => "MBR partition table"@,
                Format::Gpt => "GPT partition table"@,
                Format::Fat => "FAT12/16/32 volume"@,
                Format::Exfat => "exFAT volume"@,
            },
    {
        match *self {
            Format::Mbr => MbrProbe.name(),
            Format::Gpt => GptProbe.name(),
            Format::Fat => FatProbe.name(),
            Format::Exfat => ExfatProbe.name(),
        }
    }

    /// Score the bytes at `at`.
    pub fn probe<S: BlockSource>(&self, src: &S, at: u64) -> (r: u8)
        ensures
            r == self.score(src.device(), at),
    {
        match *self {
            Format::Mbr => MbrProbe.probe(src, at),
            Format::Gpt => GptProbe.probe(src, at),
            Format::Fat => FatProbe.probe(src, at),
            Format::Exfat => ExfatProbe.probe(src, at),
        }
    }
}

/// The formats to look for, in the order they were registered.
#[derive(Debug)]
pub struct Registry {
    formats: Vec<Format>,
}

impl View for Registry {
    type V = Seq<Format>;

    closed spec fn view(&self) -> Seq<Format> {
        self.formats@
    }
}

impl Registry {
    /// A registry without formats.
    pub fn new() -> (r: Registry)
        ensures
            r@ == Seq::<Format>::empty(),
    {
        Registry { formats: Vec::new() }
    }

    /// Look for one more format.
    pub fn register(&mut self, format: Format)
        ensures
            final(self)@ == old(self)@.push(format),
    {
        self.formats.push(format);
    }

    /// The formats, in order.
    pub fn formats(&self) -> (r: &[Format])
        ensures
            r@ == self@,
    {
        self.formats.as_slice()
    }
}

} // verus!
