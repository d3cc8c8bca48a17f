//! Entry sets: a 0x85 primary and its secondaries, read as the one thing a user
//! thinks of as "a file".

use crate::common;
use crate::common::{div_ceil, u16_or_zero, u32_or_zero, u64_or_zero};
use crate::desc::{DescModel, Record, RecordModel, StructDesc};
use crate::exfat::chain;
use crate::exfat::chain::{abs_of, cluster_chain, cluster_runs, runs_to_extent, MAX_SPANS};
use crate::exfat::desc;
use crate::exfat::entry;
use crate::exfat::entry::{judge_checksum, name_hash_ascii, set_checksum, SetChecksum};
use crate::exfat::finding;
use crate::exfat::finding::{note, Finding};
use crate::exfat::geometry::Geometry;
use crate::exfat::types;
use crate::extent::Span;
use crate::source::{BlockSource, Device};
use crate::text;
use crate::text::Text;
use vstd::prelude::*;
use vstd::slice::slice_subrange;

verus! {

/// How deep subdirectory expansion may go before it refuses.
pub const MAX_SUBDIR_DEPTH: u32 = 16;

// ------------------------------------------------------------ inside the set

/// Type byte of record `i` of a set.
pub open spec fn record_type(set: Seq<u8>, i: int) -> u8 {
    set[32 * i]
}

/// Record `i` is a secondary whose type, deleted or not, is `kind`.
pub open spec fn is_kind(set: Seq<u8>, i: int, kind: u8) -> bool {
    i >= 1 && types::restored(record_type(set, i)) == kind
}

/// The first stream extension among the first `n` records.
pub open spec fn stream_among(set: Seq<u8>, n: nat) -> Option<int>
    decreases n,
{
    if n <= 1 {
        None
    } else {
        match stream_among(set, (n - 1) as nat) {
            Some(i) => Some(i),
            None => if is_kind(set, n - 1, types::STREAM_EXTENSION) {
                Some(n - 1)
            } else {
                None
            },
        }
    }
}

/// How many of the first `n` records are file names.
pub open spec fn name_count(set: Seq<u8>, n: nat) -> nat
    decreases n,
{
    if n <= 1 {
        0
    } else {
        name_count(set, (n - 1) as nat) + if is_kind(set, n - 1, types::FILE_NAME) {
            1nat
        } else {
            0nat
        }
    }
}

/// The code units of the file names among the first `n` records, in order.
pub open spec fn name_units(set: Seq<u8>, n: nat) -> Seq<u16>
    decreases n,
{
    if n <= 1 {
        Seq::empty()
    } else {
        name_units(set, (n - 1) as nat) + if is_kind(set, n - 1, types::FILE_NAME) {
            text::units_in(set, 32 * (n - 1) + 2, 15)
        } else {
            Seq::empty()
        }
    }
}

/// Some of the first `n` records disagrees with the primary about being in use.
pub open spec fn disagrees(set: Seq<u8>, n: int) -> bool {
    exists|i: int|
        0 <= i < n && types::in_use(#[trigger] record_type(set, i)) != types::in_use(set[0])
}

/// What one record of a set is to the set.
#[derive(Clone, Copy, Debug, PartialEq, Eq, Structural)]
pub enum Role {
    File,
    Stream,
    Name { index: u64 },
    Other,
}

/// One record of a set, and where it lies.
#[derive(Clone, Copy, Debug, PartialEq, Eq, Structural)]
pub struct SetRecord {
    pub at: u64,
    pub type_byte: u8,
    pub role: Role,
}

/// What record `i` of a set is to it.
pub open spec fn role_of(set: Seq<u8>, i: int) -> Role {
    if i == 0 {
        Role::File
    } else if is_kind(set, i, types::STREAM_EXTENSION) {
        Role::Stream
    } else if is_kind(set, i, types::FILE_NAME) {
        Role::Name { index: name_count(set, i as nat) as u64 }
    } else {
        Role::Other
    }
}

impl SetRecord {
    /// The row label of the record.
    pub open spec fn named(self) -> Seq<char> {
        (if types::in_use(self.type_byte) {
            ""@
        } else {
            "deleted "@
        }) + match self.role {
            Role::File => "file entry"@,
            Role::Stream => "stream extension"@,
            Role::Name { index } => "file name ["@ + text::dec(index as int) + "]"@,
            Role::Other => types::entry_type_name(self.type_byte)@,
        }
    }

    /// The row label of the record.
    pub fn label(&self) -> (r: String)
        ensures
            r@ == self.named(),
    {
        let t = Text::of(if types::is_in_use(self.type_byte) { "" } else { "deleted " });
        let t = match self.role {
            Role::File => t.lit("file entry"),
            Role::Stream => t.lit("stream extension"),
            Role::Name { index } => t.lit("file name [").dec(index).lit("]"),
            Role::Other => t.lit(types::entry_type_label(self.type_byte)),
        };
        assert(t@ =~= self.named());
        t.done()
    }
}

/// The numbers a set declares about itself and its file.
#[derive(Clone, Copy, Debug, PartialEq, Eq, Structural)]
pub struct SetFacts {
    /// `secondary_count`, as stored.
    pub declared: u64,
    /// Records that remain in the directory after the primary.
    pub available: u64,
    /// Records that were taken as the set, the primary included.
    pub total: u64,
    pub live: bool,
    pub mixed: bool,
    pub is_dir: bool,
    pub has_stream: bool,
    pub name_entries: u64,
    pub name_length: u64,
    pub stored_hash: Option<u16>,
    pub first_cluster: u64,
    pub data_length: u64,
    pub valid_length: u64,
    pub no_fat_chain: bool,
    pub alloc_possible: bool,
}

/// How many records a set of `declared` secondaries takes when `available` remain.
pub open spec fn set_total(declared: u64, available: u64) -> u64 {
    if declared <= available {
        (declared + 1) as u64
    } else {
        (available + 1) as u64
    }
}

/// The bytes of the set whose primary is slot `k`.
pub open spec fn set_bytes(flat: Seq<u8>, k: int, slots: int) -> Seq<u8> {
    let total = set_total(flat[32 * k + 1] as u64, (slots - k - 1) as u64);
    flat.subrange(32 * k, 32 * (k + total))
}

/// The facts of a set with `available` records after its primary.
pub open spec fn facts_of(set: Seq<u8>, available: u64) -> SetFacts {
    let declared = set[1] as u64;
    let total = set_total(declared, available);
    let stream = stream_among(set, total as nat);
    let s = match stream {
        Some(i) => set.subrange(32 * i, 32 * i + 32),
        None => Seq::empty(),
    };
    SetFacts {
        declared,
        available,
        total,
        live: types::in_use(set[0]),
        mixed: disagrees(set, total as int),
        is_dir: (common::le16(set, 4) / 16) % 2 == 1,
        has_stream: stream is Some,
        name_entries: name_count(set, total as nat) as u64,
        name_length: common::byte_or_zero(s, 3) as u64,
        stored_hash: if stream is Some { Some(common::le16(s, 4)) } else { None },
        first_cluster: common::le32_or_zero(s, 0x14) as u64,
        data_length: common::le64_or_zero(s, 0x18),
        valid_length: common::le64_or_zero(s, 0x08),
        no_fat_chain: (common::byte_or_zero(s, 1) / 2) % 2 == 1,
        alloc_possible: common::byte_or_zero(s, 1) % 2 == 1,
    }
}

/// The units that belong to the name: as many as `name_length` says, if there are
/// that many.
pub open spec fn shown_units(units: Seq<u16>, name_length: u64) -> Seq<u16> {
    if name_length < units.len() {
        units.take(name_length as int)
    } else {
        units
    }
}

/// Units past `name_length` that are not zero: an older, longer name.
pub open spec fn has_residue(units: Seq<u16>, name_length: u64) -> bool {
    exists|i: int| name_length <= i < units.len() && #[trigger] units[i] != 0
}

/// What a deleted set says of itself.
pub open spec fn deletion_findings(set: Seq<u8>, live: bool) -> Seq<Finding> {
    if live {
        Seq::empty()
    } else {
        seq![
            if stored_matches_restored(set) {
                Finding::SetIntact
            } else {
                Finding::SetOverwritten
            },
            Finding::SetDeleted {
                primary: set[0],
                second: common::byte_or_zero(set, 32),
                third: common::byte_or_zero(set, 64),
            },
        ]
    }
}

/// The stored checksum matches once the `InUse` bits are put back.
pub open spec fn stored_matches_restored(set: Seq<u8>) -> bool {
    entry::stored_sum(set) == Some(entry::set_sum(entry::with_in_use(set)))
}

/// What is wrong with how the set is put together.
pub open spec fn structure_findings(f: SetFacts) -> Seq<Finding> {
    let needed = common::ceil_div(f.name_length as int, 15) as u64;
    Seq::<Finding>::empty() + finding::when(f.mixed, Finding::MixedUse)
        + finding::when(
            f.declared > f.available,
            Finding::SetTruncated { declared: f.declared, available: f.available },
        )
        + finding::when(
            f.declared < 2,
            Finding::TooFewSecondaries { declared: f.declared },
        )
        + finding::when(!f.has_stream, Finding::NoStream)
        + finding::when(
            f.has_stream && f.name_entries != needed,
            Finding::NameEntries {
                name_length: f.name_length,
                needed,
                entries: f.name_entries,
            },
        )
}

/// What is wrong with the name.
pub open spec fn name_findings(f: SetFacts, units: Seq<u16>) -> Seq<Finding> {
    finding::when(has_residue(units, f.name_length), Finding::NameResidue)
        + match entry::ascii_hash(shown_units(units, f.name_length)) {
        Some(h) => finding::when(
            f.stored_hash != Some(h),
            Finding::NameHash {
                stored: match f.stored_hash {
                    Some(v) => v as u64,
                    None => 0,
                },
                computed: h as u64,
            },
        ),
        None => seq![Finding::NameHashUnverified],
    }
}

/// What is wrong with the lengths.
pub open spec fn length_findings(f: SetFacts) -> Seq<Finding> {
    Seq::<Finding>::empty() + finding::when(
        f.valid_length > f.data_length,
        Finding::ValidPastLength { valid: f.valid_length, length: f.data_length },
    ) + finding::when(
        f.valid_length < f.data_length,
        Finding::UnwrittenTail { bytes: (f.data_length - f.valid_length) as u64 },
    ) + finding::when(
        !f.alloc_possible && (f.first_cluster != 0 || f.data_length != 0),
        Finding::AllocationImpossible,
    )
}

/// Everything worth saying about a set as a whole.
pub open spec fn set_findings(set: Seq<u8>, f: SetFacts) -> Seq<Finding> {
    deletion_findings(set, f.live) + structure_findings(f) + name_findings(
        f,
        name_units(set, f.total as nat),
    ) + length_findings(f)
}

// ---------------------------------------------------------------- the clusters

/// A subdirectory that has not been read yet. It is expanded when someone opens
/// it, and not before.
#[derive(Debug)]
pub struct Subdir {
    pub geo: Geometry,
    pub first_cluster: u64,
    pub no_fat_chain: bool,
    /// `Some` only for a contiguous directory, where it is the sole record of how
    /// many clusters the directory occupies.
    pub byte_len: Option<u64>,
    pub depth: u32,
    pub name: String,
}

/// What a [`Subdir`] says.
pub struct SubdirModel {
    pub geo: Geometry,
    pub first_cluster: u64,
    pub no_fat_chain: bool,
    pub byte_len: Option<u64>,
    pub depth: u32,
    pub name: Seq<char>,
}

impl View for Subdir {
    type V = SubdirModel;

    open spec fn view(&self) -> SubdirModel {
        SubdirModel {
            geo: self.geo,
            first_cluster: self.first_cluster,
            no_fat_chain: self.no_fat_chain,
            byte_len: self.byte_len,
            depth: self.depth,
            name: self.name@,
        }
    }
}

/// The clusters a record owns.
#[derive(Debug)]
pub struct ClusterList {
    pub is_dir: bool,
    pub clusters: u64,
    pub extent: Vec<Span>,
    pub findings: Vec<Finding>,
    pub contents: Option<Subdir>,
}

/// What a [`ClusterList`] says.
pub struct ClusterListModel {
    pub is_dir: bool,
    pub clusters: u64,
    pub extent: Seq<Span>,
    pub findings: Seq<Finding>,
    pub contents: Option<SubdirModel>,
}

impl View for ClusterList {
    type V = ClusterListModel;

    open spec fn view(&self) -> ClusterListModel {
        ClusterListModel {
            is_dir: self.is_dir,
            clusters: self.clusters,
            extent: self.extent@,
            findings: self.findings@,
            contents: match self.contents {
                Some(c) => Some(c@),
                None => None,
            },
        }
    }
}

/// The byte length a record's chain is held against. A directory that is walked
/// through the FAT ends at its end-of-chain marker, so its declared length adds
/// nothing; a contiguous one has nothing else.
pub open spec fn declared_bytes(f: SetFacts) -> Option<u64> {
    if f.is_dir && !f.no_fat_chain {
        None
    } else {
        Some(f.data_length)
    }
}

/// The clusters of the file or directory that a set describes.
pub open spec fn clusters_of(
    dev: Device,
    g: Geometry,
    f: SetFacts,
    name: Seq<char>,
    depth: u32,
) -> ClusterListModel {
    let c = chain::chain_of(dev, g, f.first_cluster, f.no_fat_chain, declared_bytes(f));
    let runs = chain::runs_of(g, c.clusters);
    ClusterListModel {
        is_dir: f.is_dir,
        clusters: c.clusters.len() as u64,
        extent: chain::extent_of(runs),
        findings: c.findings + finding::when(
            runs.len() > MAX_SPANS,
            Finding::RunsHighlighted { runs: runs.len() as u64 },
        ) + finding::when(f.is_dir && depth >= MAX_SUBDIR_DEPTH, Finding::NestingLimit)
            + finding::when(
            f.is_dir && depth < MAX_SUBDIR_DEPTH && !f.live,
            Finding::DeletedDirectory,
        ),
        contents: if f.is_dir && depth < MAX_SUBDIR_DEPTH && f.live {
            Some(
                SubdirModel {
                    geo: g,
                    first_cluster: f.first_cluster,
                    no_fat_chain: f.no_fat_chain,
                    byte_len: declared_bytes(f),
                    depth: (depth + 1) as u32,
                    name,
                },
            )
        } else {
            None
        },
    }
}

// --------------------------------------------------------------------- the set

/// A file or directory, live or deleted.
#[derive(Debug)]
pub struct EntrySet {
    pub facts: SetFacts,
    pub name: String,
    pub records: Vec<SetRecord>,
    /// The fields of each record, in the same order.
    pub fields: Vec<Record>,
    pub extent: Vec<Span>,
    pub checksum: SetChecksum,
    pub findings: Vec<Finding>,
    pub data: Option<ClusterList>,
}

/// What an [`EntrySet`] says.
pub struct SetModel {
    pub facts: SetFacts,
    pub name: Seq<char>,
    pub records: Seq<SetRecord>,
    pub fields: Seq<RecordModel>,
    pub extent: Seq<Span>,
    pub checksum: SetChecksum,
    pub findings: Seq<Finding>,
    pub data: Option<ClusterListModel>,
}

impl View for EntrySet {
    type V = SetModel;

    open spec fn view(&self) -> SetModel {
        SetModel {
            facts: self.facts,
            name: self.name@,
            records: self.records@,
            fields: field_models(self.fields@),
            extent: self.extent@,
            checksum: self.checksum,
            findings: self.findings@,
            data: match self.data {
                Some(d) => Some(d@),
                None => None,
            },
        }
    }
}

/// Absolute offset of slot `k`, zero where the run list does not reach it.
pub open spec fn slot_at(runs: Seq<(u64, u64)>, k: int) -> u64 {
    match chain::abs_from(runs, (32 * k) as u64, 0) {
        Some(at) => at,
        None => 0,
    }
}

/// The records of the set whose primary is slot `k`.
pub open spec fn records_of(set: Seq<u8>, runs: Seq<(u64, u64)>, k: int, n: nat) -> Seq<SetRecord> {
    Seq::new(
        n,
        |i: int|
            SetRecord {
                at: slot_at(runs, k + i),
                type_byte: record_type(set, i),
                role: role_of(set, i),
            },
    )
}

/// The models of a list of records.
pub open spec fn field_models(v: Seq<Record>) -> Seq<RecordModel> {
    Seq::new(v.len(), |i: int| v[i]@)
}

/// The layout of a record, given what it is to the set.
pub open spec fn role_layout(role: Role) -> DescModel {
    match role {
        Role::File => DescModel {
            name: "exFAT file entry"@,
            size: 32,
            fields: desc::file_entry_fields(),
        },
        Role::Stream => entry::layout_of(types::STREAM_EXTENSION),
        Role::Name { .. } => entry::layout_of(types::FILE_NAME),
        Role::Other => entry::generic_layout(),
    }
}

/// The fields of record `i` of the set whose primary is slot `k`.
pub open spec fn fields_of_record(
    set: Seq<u8>,
    runs: Seq<(u64, u64)>,
    k: int,
    i: int,
    base: u64,
) -> RecordModel {
    entry::record_with(
        role_layout(role_of(set, i)),
        set.subrange(32 * i, 32 * i + 32),
        slot_at(runs, k + i),
        base,
    )
}

/// The fields of the first `n` records of the set whose primary is slot `k`.
pub open spec fn record_fields(
    set: Seq<u8>,
    runs: Seq<(u64, u64)>,
    k: int,
    n: nat,
    base: u64,
) -> Seq<RecordModel> {
    Seq::new(n, |i: int| fields_of_record(set, runs, k, i, base))
}

fn layout_for_role(role: Role) -> (r: StructDesc)
    ensures
        r@ == role_layout(role),
{
    match role {
        Role::File => desc::file_entry(),
        Role::Stream => desc::stream_extension(),
        Role::Name { .. } => desc::file_name(),
        Role::Other => desc::generic_entry(),
    }
}

fn read_fields(set: &[u8], records: &[SetRecord], base: u64) -> (r: Vec<Record>)
    requires
        records@.len() <= 256,
        set@.len() == 32 * records@.len(),
    ensures
        field_models(r@) == Seq::new(
            records@.len(),
            |i: int|
                entry::record_with(
                    role_layout(records@[i].role),
                    set@.subrange(32 * i, 32 * i + 32),
                    records@[i].at,
                    base,
                ),
        ),
{
    let ghost want = Seq::new(
        records@.len(),
        |i: int|
            entry::record_with(
                role_layout(records@[i].role),
                set@.subrange(32 * i, 32 * i + 32),
                records@[i].at,
                base,
            ),
    );
    let mut out: Vec<Record> = Vec::new();
    let mut i: usize = 0;
    while i < records.len()
        invariant
            i <= records@.len() <= 256,
            set@.len() == 32 * records@.len(),
            want == Seq::new(
                records@.len(),
                |i: int|
                    entry::record_with(
                        role_layout(records@[i].role),
                        set@.subrange(32 * i, 32 * i + 32),
                        records@[i].at,
                        base,
                    ),
            ),
            field_models(out@) =~= want.take(i as int),
        decreases records@.len() - i,
    {
        let ghost before = field_models(out@);
        let layout = layout_for_role(records[i].role);
        let b: &[u8] = slice_subrange(set, 32 * i, 32 * i + 32);
        let f = entry::read_record(&layout, b, records[i].at, base);
        assert(f@ == want[i as int]);
        out.push(f);
        assert(field_models(out@) =~= before.push(f@));
        i += 1;
    }
    assert(field_models(out@) =~= want);
    out
}

/// The spans of the first `n` records of the set at slot `k`, as far as they can
/// be placed on the device.
pub open spec fn record_spans(runs: Seq<(u64, u64)>, k: int, n: nat) -> Seq<Span>
    decreases n,
{
    if n == 0 {
        Seq::empty()
    } else {
        let before = record_spans(runs, k, (n - 1) as nat);
        match chain::abs_from(runs, (32 * (k + n - 1)) as u64, 0) {
            Some(at) => before.push(Span::of_bytes(at, 32)),
            None => before,
        }
    }
}

/// The entry set whose primary is slot `k` of the `slots` slots in `flat`.
pub open spec fn set_of(
    dev: Device,
    g: Geometry,
    flat: Seq<u8>,
    runs: Seq<(u64, u64)>,
    k: int,
    slots: int,
    depth: u32,
) -> SetModel {
    let set = set_bytes(flat, k, slots);
    let f = facts_of(set, (slots - k - 1) as u64);
    let name = text::utf16_text(shown_units(name_units(set, f.total as nat), f.name_length));
    SetModel {
        facts: f,
        name,
        records: records_of(set, runs, k, f.total as nat),
        fields: record_fields(set, runs, k, f.total as nat, g.base),
        extent: record_spans(runs, k, f.total as nat),
        checksum: entry::judged(
            entry::stored_sum(set),
            entry::set_sum(set),
            if !f.live || f.mixed {
                Some(entry::set_sum(entry::with_in_use(set)))
            } else {
                None
            },
            f.live && !f.mixed,
        ),
        findings: set_findings(set, f),
        data: if f.first_cluster != 0 && g.trusted {
            Some(clusters_of(dev, g, f, name, depth))
        } else {
            None
        },
    }
}

// ------------------------------------------------------------------- reading it

/// What walking over a set's records collects.
struct Parts {
    records: Vec<SetRecord>,
    extent: Vec<Span>,
    units: Vec<u16>,
    stream: Option<usize>,
    names: u64,
    mixed: bool,
}

fn collect_parts(set: &[u8], runs: &[(u64, u64)], k: usize, total: usize) -> (r: Parts)
    requires
        1 <= total <= 256,
        set@.len() == 32 * total,
        32 * (k + total) <= usize::MAX,
    ensures
        r.records@ == records_of(set@, runs@, k as int, total as nat),
        r.extent@ == record_spans(runs@, k as int, total as nat),
        r.units@ == name_units(set@, total as nat),
        r.units@.len() <= 15 * total,
        match r.stream {
            Some(i) => stream_among(set@, total as nat) == Some(i as int) && 1 <= i < total,
            None => stream_among(set@, total as nat) is None,
        },
        r.names == name_count(set@, total as nat),
        r.mixed == disagrees(set@, total as int),
{
    let mut records: Vec<SetRecord> = Vec::new();
    let mut extent: Vec<Span> = Vec::new();
    let mut units: Vec<u16> = Vec::new();
    let mut stream: Option<usize> = None;
    let mut names: u64 = 0;
    let mut mixed: bool = false;
    let live: bool = types::is_in_use(set[0]);
    let mut i: usize = 0;
    while i < total
        invariant
            i <= total <= 256,
            set@.len() == 32 * total,
            32 * (k + total) <= usize::MAX,
            live == types::in_use(set@[0]),
            records@ =~= records_of(set@, runs@, k as int, i as nat),
            extent@ == record_spans(runs@, k as int, i as nat),
            units@ =~= name_units(set@, i as nat),
            units@.len() <= 15 * i,
            match stream {
                Some(j) => stream_among(set@, i as nat) == Some(j as int) && 1 <= j < total,
                None => stream_among(set@, i as nat) is None,
            },
            names == name_count(set@, i as nat),
            names <= i,
            mixed == disagrees(set@, i as int),
        decreases total - i,
    {
        let off: usize = 32 * i;
        let t: u8 = set[off];
        assert(t == record_type(set@, i as int));
        let kind: u8 = types::undeleted(t);
        let place = abs_of(runs, 32 * (k + i) as u64);
        let at: u64 = match place {
            Some(at) => at,
            None => 0,
        };
        let role = if i == 0 {
            Role::File
        } else if kind == types::STREAM_EXTENSION {
            Role::Stream
        } else if kind == types::FILE_NAME {
            Role::Name { index: names }
        } else {
            Role::Other
        };
        records.push(SetRecord { at, type_byte: t, role });
        if let Some(at) = place {
            extent.push(Span::bytes(at, 32));
        }
        if types::is_in_use(t) != live {
            mixed = true;
            assert(types::in_use(record_type(set@, i as int)) != types::in_use(set@[0]));
        }
        if i > 0 && kind == types::STREAM_EXTENSION && stream.is_none() {
            stream = Some(i);
        }
        if i > 0 && kind == types::FILE_NAME {
            names += 1;
            let mut more: Vec<u16> = text::units_at(set, off + 2, 15);
            units.append(&mut more);
        }
        proof {
            if disagrees(set@, i + 1) && !disagrees(set@, i as int) {
                let j = choose|j: int|
                    0 <= j < i + 1 && types::in_use(#[trigger] record_type(set@, j))
                        != types::in_use(set@[0]);
                assert(j == i);
            }
        }
        i += 1;
    }
    Parts { records, extent, units, stream, names, mixed }
}

fn read_facts(set: &[u8], available: u64, parts: &Parts) -> (r: SetFacts)
    requires
        set@.len() == 32 * set_total(set@[1] as u64, available),
        available < usize::MAX,
        ({
            let total = set_total(set@[1] as u64, available);
            &&& match parts.stream {
                Some(i) => stream_among(set@, total as nat) == Some(i as int) && 1 <= i < total,
                None => stream_among(set@, total as nat) is None,
            }
            &&& parts.names == name_count(set@, total as nat)
            &&& parts.mixed == disagrees(set@, total as int)
        }),
    ensures
        r == facts_of(set@, available),
{
    let declared: u64 = set[1] as u64;
    let total: u64 = if declared <= available { declared + 1 } else { available + 1 };
    let live: bool = types::is_in_use(set[0]);
    let is_dir: bool = (u16_or_zero(set, 4) / 16) % 2 == 1;
    let base = SetFacts {
        declared,
        available,
        total,
        live,
        mixed: parts.mixed,
        is_dir,
        has_stream: false,
        name_entries: parts.names,
        name_length: 0,
        stored_hash: None,
        first_cluster: 0,
        data_length: 0,
        valid_length: 0,
        no_fat_chain: false,
        alloc_possible: false,
    };
    match parts.stream {
        None => base,
        Some(i) => {
            let s: &[u8] = slice_subrange(set, 32 * i, 32 * i + 32);
            SetFacts {
                has_stream: true,
                name_length: s[3] as u64,
                stored_hash: common::u16le(s, 4),
                first_cluster: u32_or_zero(s, 0x14) as u64,
                data_length: u64_or_zero(s, 0x18),
                valid_length: u64_or_zero(s, 0x08),
                no_fat_chain: (s[1] / 2) % 2 == 1,
                alloc_possible: s[1] % 2 == 1,
                ..base
            }
        },
    }
}

fn check_residue(units: &[u16], from: u64) -> (r: bool)
    ensures
        r == has_residue(units@, from),
{
    let mut i: usize = 0;
    while i < units.len()
        invariant
            i <= units@.len(),
            forall|j: int| from <= j < i ==> #[trigger] units@[j] == 0,
        decreases units@.len() - i,
    {
        if i as u64 >= from && units[i] != 0 {
            assert(units@[i as int] != 0);
            return true;
        }
        i += 1;
    }
    false
}

fn check_structure(f: &SetFacts) -> (out: Vec<Finding>)
    ensures
        out@ == structure_findings(*f),
{
    let mut out: Vec<Finding> = Vec::new();
    note(&mut out, f.mixed, Finding::MixedUse);
    note(
        &mut out,
        f.declared > f.available,
        Finding::SetTruncated { declared: f.declared, available: f.available },
    );
    note(&mut out, f.declared < 2, Finding::TooFewSecondaries { declared: f.declared });
    note(&mut out, !f.has_stream, Finding::NoStream);
    let needed: u64 = div_ceil(f.name_length, 15);
    note(
        &mut out,
        f.has_stream && f.name_entries != needed,
        Finding::NameEntries { name_length: f.name_length, needed, entries: f.name_entries },
    );
    out
}

fn check_name(f: &SetFacts, units: &[u16], shown: &[u16]) -> (out: Vec<Finding>)
    requires
        shown@ == shown_units(units@, f.name_length),
    ensures
        out@ == name_findings(*f, units@),
{
    let mut out: Vec<Finding> = Vec::new();
    note(&mut out, check_residue(units, f.name_length), Finding::NameResidue);
    match name_hash_ascii(shown) {
        Some(h) => {
            let (same, stored): (bool, u64) = match f.stored_hash {
                Some(v) => (v == h, v as u64),
                None => (false, 0),
            };
            note(&mut out, !same, Finding::NameHash { stored, computed: h as u64 });
        },
        None => {
            out.push(Finding::NameHashUnverified);
        },
    }
    assert(out@ =~= name_findings(*f, units@));
    out
}

fn check_lengths(f: &SetFacts) -> (out: Vec<Finding>)
    ensures
        out@ == length_findings(*f),
{
    let mut out: Vec<Finding> = Vec::new();
    note(
        &mut out,
        f.valid_length > f.data_length,
        Finding::ValidPastLength { valid: f.valid_length, length: f.data_length },
    );
    let tail: u64 = f.data_length.saturating_sub(f.valid_length);
    note(&mut out, f.valid_length < f.data_length, Finding::UnwrittenTail { bytes: tail });
    note(
        &mut out,
        !f.alloc_possible && (f.first_cluster != 0 || f.data_length != 0),
        Finding::AllocationImpossible,
    );
    out
}

fn check_deletion(set: &[u8], live: bool, restored: Option<u64>) -> (out: Vec<Finding>)
    requires
        set@.len() >= 32,
        !live ==> restored == Some(entry::set_sum(entry::with_in_use(set@))),
    ensures
        out@ == deletion_findings(set@, live),
{
    let mut out: Vec<Finding> = Vec::new();
    if live {
        return out;
    }
    let intact: bool = match (common::u16le(set, 2), restored) {
        (Some(stored), Some(computed)) => stored as u64 == computed,
        _ => false,
    };
    out.push(
        if intact {
            Finding::SetIntact
        } else {
            Finding::SetOverwritten
        },
    );
    out.push(
        Finding::SetDeleted {
            primary: set[0],
            second: common::u8_or_zero(set, 32),
            third: common::u8_or_zero(set, 64),
        },
    );
    assert(out@ =~= deletion_findings(set@, live));
    out
}

fn clusters_owned<S: BlockSource>(
    src: &S,
    geo: &Geometry,
    f: &SetFacts,
    name: &String,
    depth: u32,
) -> (r: ClusterList)
    requires
        geo.well_formed(),
    ensures
        r@ == clusters_of(src.device(), *geo, *f, name@, depth),
{
    let want = if f.is_dir && !f.no_fat_chain { None } else { Some(f.data_length) };
    let (clusters, mut findings) = cluster_chain(
        src,
        geo,
        f.first_cluster,
        f.no_fat_chain,
        want,
    );
    let runs: Vec<(u64, u64)> = cluster_runs(geo, &clusters);
    note(
        &mut findings,
        runs.len() > MAX_SPANS,
        Finding::RunsHighlighted { runs: runs.len() as u64 },
    );
    note(&mut findings, f.is_dir && depth >= MAX_SUBDIR_DEPTH, Finding::NestingLimit);
    note(
        &mut findings,
        f.is_dir && depth < MAX_SUBDIR_DEPTH && !f.live,
        Finding::DeletedDirectory,
    );
    let contents = if f.is_dir && depth < MAX_SUBDIR_DEPTH && f.live {
        Some(
            Subdir {
                geo: *geo,
                first_cluster: f.first_cluster,
                no_fat_chain: f.no_fat_chain,
                byte_len: want,
                depth: depth + 1,
                name: name.clone(),
            },
        )
    } else {
        None
    };
    ClusterList {
        is_dir: f.is_dir,
        clusters: clusters.len() as u64,
        extent: runs_to_extent(&runs),
        findings,
        contents,
    }
}

/// Read the entry set whose primary is slot `k` of the `slots` slots in `flat`.
pub fn entry_set<S: BlockSource>(
    src: &S,
    geo: &Geometry,
    flat: &[u8],
    runs: &[(u64, u64)],
    k: usize,
    slots: usize,
    depth: u32,
) -> (r: EntrySet)
    requires
        geo.well_formed(),
        k < slots,
        32 * slots <= flat@.len(),
    ensures
        r@ == set_of(src.device(), *geo, flat@, runs@, k as int, slots as int, depth),
        1 <= r.facts.total <= slots - k,
{
    let len: usize = flat.len();
    let available: usize = slots - k - 1;
    let declared: usize = flat[32 * k + 1] as usize;
    let total: usize = if declared <= available { declared + 1 } else { available + 1 };
    let set: &[u8] = slice_subrange(flat, 32 * k, 32 * (k + total));
    assert(set@ =~= set_bytes(flat@, k as int, slots as int));
    let parts = collect_parts(set, runs, k, total);
    let facts = read_facts(set, available as u64, &parts);

    let keep: usize = if facts.name_length < parts.units.len() as u64 {
        facts.name_length as usize
    } else {
        parts.units.len()
    };
    let shown: &[u16] = slice_subrange(&parts.units, 0, keep);
    assert(shown@ =~= shown_units(parts.units@, facts.name_length));
    let name: String = text::decode_utf16(shown);

    let (stored, computed, restored) = set_checksum(set, !facts.live || facts.mixed);
    let checksum = judge_checksum(stored, computed, restored, facts.live && !facts.mixed);

    let mut findings: Vec<Finding> = check_deletion(set, facts.live, restored);
    let mut structure: Vec<Finding> = check_structure(&facts);
    let mut naming: Vec<Finding> = check_name(&facts, &parts.units, shown);
    let mut lengths: Vec<Finding> = check_lengths(&facts);
    findings.append(&mut structure);
    findings.append(&mut naming);
    findings.append(&mut lengths);

    let data = if facts.first_cluster != 0 && geo.trusted {
        Some(clusters_owned(src, geo, &facts, &name, depth))
    } else {
        None
    };
    let fields: Vec<Record> = read_fields(set, &parts.records, geo.base);
    assert(field_models(fields@) =~= record_fields(
        set@,
        runs@,
        k as int,
        total as nat,
        geo.base,
    ));
    EntrySet {
        facts,
        name,
        records: parts.records,
        fields,
        extent: parts.extent,
        checksum,
        findings,
        data,
    }
}

impl SetModel {
    /// The row label of the set.
    pub open spec fn named(self) -> Seq<char> {
        (if self.facts.live {
            ""@
        } else {
            "deleted "@
        }) + (if self.facts.is_dir {
            "directory \""@
        } else {
            "file \""@
        }) + self.name + "\""@
    }
}

impl EntrySet {

    /// The row label of the set.
    pub fn label(&self) -> (r: String)
        ensures
            r@ == self@.named(),
    {
        Text::of(
            if self.facts.live {
                ""
            } else {
                "deleted "
            },
        ).lit(
            if self.facts.is_dir {
                "directory \""
            } else {
                "file \""
            },
        ).lit(self.name.as_str()).lit("\"").done()
    }
}

} // verus!
