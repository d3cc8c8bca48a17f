//! Where bytes come from.

use vstd::prelude::*;

verus! {

/// How a read went. A short read and a refused read are different facts, and
/// neither of them is "the device holds zeros".
#[derive(Clone, Copy, Debug, PartialEq, Eq, Structural)]
pub enum ReadOutcome {
    Full,
    Short { filled: u64 },
    Unreadable,
}

/// What one read hands back: the bytes, and how the read went.
pub struct Reading {
    pub data: Seq<u8>,
    pub outcome: ReadOutcome,
}

impl Reading {
    /// True when the device refused the range.
    pub open spec fn refused(self) -> bool {
        self.outcome == ReadOutcome::Unreadable
    }
}

/// The mathematical model of a block device: its claimed length, its logical
/// sector size, and the result of every possible read.
pub struct Device {
    pub len: u64,
    pub sector_size: u32,
    pub reads: spec_fn(u64, u64) -> Reading,
}

impl Device {
    /// The result of reading `n` bytes at `at`.
    pub open spec fn read(self, at: u64, n: u64) -> Reading {
        (self.reads)(at, n)
    }
}

/// A reading of at most `n` bytes whose outcome agrees with how many arrived.
pub open spec fn reading_fits(r: Reading, n: u64) -> bool {
    &&& r.data.len() <= n
    &&& (r.outcome == ReadOutcome::Full ==> r.data.len() == n)
    &&& (r.outcome matches ReadOutcome::Short { filled } ==> filled == r.data.len() && filled < n)
}

/// Anything that bytes can be read from at an absolute offset.
pub trait BlockSource {
    /// The device this source stands for.
    spec fn device(&self) -> Device;

    /// Length in bytes, as the device reports it.
    fn len(&self) -> (r: u64)
        ensures
            r == self.device().len,
    ;

    /// Logical sector size in bytes, as the device reports it.
    fn logical_sector_size(&self) -> (r: u32)
        ensures
            r == self.device().sector_size,
    ;

    /// Read up to `n` bytes at `at`.
    fn read_vec(&self, at: u64, n: u64) -> (r: (Vec<u8>, ReadOutcome))
        ensures
            r.0@ == self.device().read(at, n).data,
            r.1 == self.device().read(at, n).outcome,
            reading_fits(self.device().read(at, n), n),
    ;
}

/// The bytes of `bytes` that a read of `n` bytes at `at` covers.
pub open spec fn window(bytes: Seq<u8>, at: int, n: int) -> Seq<u8> {
    if at >= bytes.len() || n <= 0 {
        Seq::empty()
    } else if at + n <= bytes.len() {
        bytes.subrange(at, at + n)
    } else {
        bytes.subrange(at, bytes.len() as int)
    }
}

/// A read clipped to the end of `bytes`: short, never padded.
pub open spec fn clipped_read(bytes: Seq<u8>, at: u64, n: u64) -> Reading {
    let data = window(bytes, at as int, n as int);
    Reading {
        data,
        outcome: if data.len() == n {
            ReadOutcome::Full
        } else {
            ReadOutcome::Short { filled: data.len() as u64 }
        },
    }
}

/// A device held in memory.
#[derive(Debug)]
pub struct MemSource {
    bytes: Vec<u8>,
    sector_size: u32,
}

impl MemSource {
    /// The device's contents.
    pub closed spec fn contents(&self) -> Seq<u8> {
        self.bytes@
    }

    /// The sector size that the device reports.
    pub closed spec fn reported_sector_size(&self) -> u32 {
        self.sector_size
    }

    /// A device with 512-byte sectors.
    pub fn new(bytes: Vec<u8>) -> (r: MemSource)
        ensures
            r.contents() == bytes@,
            r.reported_sector_size() == 512,
    {
        MemSource { bytes, sector_size: 512 }
    }

    /// A device that reports the given sector size.
    pub fn with_sector_size(bytes: Vec<u8>, sector_size: u32) -> (r: MemSource)
        ensures
            r.contents() == bytes@,
            r.reported_sector_size() == sector_size,
    {
        MemSource { bytes, sector_size }
    }
}

impl BlockSource for MemSource {
    open spec fn device(&self) -> Device {
        let bytes = self.contents();
        Device {
            len: bytes.len() as u64,
            sector_size: self.reported_sector_size(),
            reads: |at: u64, n: u64| clipped_read(bytes, at, n),
        }
    }

    fn len(&self) -> (r: u64) {
        self.bytes.len() as u64
    }

    fn logical_sector_size(&self) -> (r: u32) {
        self.sector_size
    }

    fn read_vec(&self, at: u64, n: u64) -> (r: (Vec<u8>, ReadOutcome)) {
        let have: u64 = self.bytes.len() as u64;
        let mut out: Vec<u8> = Vec::new();
        if at < have {
            let left: u64 = have - at;
            let take: u64 = if n < left { n } else { left };
            let start: usize = at as usize;
            let end: usize = (at + take) as usize;
            let mut i: usize = start;
            while i < end
                invariant
                    start <= i <= end,
                    end <= self.bytes@.len(),
                    out@ =~= self.bytes@.subrange(start as int, i as int),
                decreases end - i,
            {
                out.push(self.bytes[i]);
                i += 1;
            }
            assert(out@ =~= window(self.bytes@, at as int, n as int));
        } else {
            assert(out@ =~= window(self.bytes@, at as int, n as int));
        }
        let filled: u64 = out.len() as u64;
        let outcome = if filled == n {
            ReadOutcome::Full
        } else {
            ReadOutcome::Short { filled }
        };
        (out, outcome)
    }
}

/// A device that refuses every read reaching past `fail_from`, the way a disk
/// with a damaged region does.
#[derive(Debug)]
pub struct FailingSource {
    pub inner: MemSource,
    pub fail_from: u64,
}

impl BlockSource for FailingSource {
    open spec fn device(&self) -> Device {
        let inner = self.inner.device();
        let limit = self.fail_from;
        Device {
            len: inner.len,
            sector_size: inner.sector_size,
            reads: |at: u64, n: u64|
                if at + n > limit {
                    Reading { data: Seq::empty(), outcome: ReadOutcome::Unreadable }
                } else {
                    inner.read(at, n)
                },
        }
    }

    fn len(&self) -> (r: u64) {
        self.inner.len()
    }

    fn logical_sector_size(&self) -> (r: u32) {
        self.inner.logical_sector_size()
    }

    fn read_vec(&self, at: u64, n: u64) -> (r: (Vec<u8>, ReadOutcome)) {
        if at > self.fail_from || n > self.fail_from - at {
            (Vec::new(), ReadOutcome::Unreadable)
        } else {
            self.inner.read_vec(at, n)
        }
    }
}

} // verus!
