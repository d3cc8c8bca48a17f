//! What a FAT volume's boot sectors and tables are told, said of the bytes on the device.

use crate::bytes::{lemma_numbers_are_little_endian, number};
use crate::common;
use crate::desc;
use crate::fat::boot;
use crate::fat::chain;
use crate::fat::desc as fat_desc;
use crate::fat::directory::DirSource;
use crate::fat::finding;
use crate::fat::finding::Finding;
use crate::fat::geometry;
use crate::fat::geometry::Geom;
use crate::fat::kind::FatKind;
use crate::fat::laws;
use crate::fat::tables;
use crate::fat::tables::{ByteDiff, FatPreview};
use crate::fat::volume;
use crate::scrub::holds_image;
use crate::source::{clipped_read, window, Device};
use vstd::arithmetic::div_mod;
use vstd::prelude::*;

verus! {

broadcast proof fn lemma_when(cond: bool, f: Finding, g: Finding)
    ensures
        #[trigger] finding::when(cond, f).contains(g) <==> cond && g == f,
{
    if cond && g == f {
        assert(finding::when(cond, f)[0] == g);
    }
}

broadcast proof fn lemma_single(f: Finding, g: Finding)
    ensures
        #[trigger] seq![f].contains(g) <==> f == g,
{
    if f == g {
        assert(seq![f][0] == g);
    }
}

// -------------------------------------------------------------------------- tables

/// Two tables, at `a` and `b` of the image, hold the same byte at `off`.
pub open spec fn alike(image: Seq<u8>, a: u64, b: u64, off: int) -> bool {
    image[a + off] == image[b + off]
}

/// The differences listed are true ones, in order, and none before `upto` is missing but
/// where sixteen are listed already.
pub open spec fn differences_to(
    image: Seq<u8>,
    a: u64,
    b: u64,
    diffs: Seq<ByteDiff>,
    upto: int,
) -> bool {
    &&& diffs.len() <= 16
    &&& forall|k: int|
        0 <= k < diffs.len() ==> {
            let d = #[trigger] diffs[k];
            d.off < upto && d.a == image[a + d.off] && d.b == image[b + d.off] && d.a != d.b
        }
    &&& forall|k: int, m: int|
        0 <= k < m < diffs.len() ==> (#[trigger] diffs[k]).off < (#[trigger] diffs[m]).off
    &&& forall|off: int|
        0 <= off < upto && !#[trigger] alike(image, a, b, off) ==> lists(diffs, off) || (diffs.len()
            == 16 && off > diffs.last().off)
}

/// A difference at `off` is listed.
pub open spec fn lists(diffs: Seq<ByteDiff>, off: int) -> bool {
    exists|k: int| 0 <= k < diffs.len() && (#[trigger] diffs[k]).off == off
}

/// Comparing two tables lists the bytes at which they differ, the first sixteen of them.
pub proof fn lemma_compared_tables(dev: Device, image: Seq<u8>, a: u64, b: u64, len: u64)
    requires
        holds_image(dev, image),
        image.len() <= u64::MAX,
        a + len <= image.len(),
        b + len <= image.len(),
        len <= 0x100_0000,
    ensures
        ({
            let s = tables::scan_of(dev, a, b, len);
            &&& !s.stopped
            &&& differences_to(image, a, b, s.diffs, len as int)
            &&& s.diffs.len() == 0 <==> image.subrange(a as int, a + len) == image.subrange(
                b as int,
                b + len,
            )
            &&& s.diffs.len() == 0 ==> tables::verdict(s, len) == (Finding::TablesAgree { bytes: len })
            &&& 0 < s.diffs.len() < 16 ==> tables::verdict(s, len) is TablesDisagree
            &&& s.diffs.len() == 16 ==> tables::verdict(s, len) is TablesDisagreeAtLeast
        }),
{
    lemma_scan_to(dev, image, a, b, len as int, 0, Seq::empty());
    let s = tables::scan_of(dev, a, b, len);
    let x = image.subrange(a as int, a + len);
    let y = image.subrange(b as int, b + len);
    if s.diffs.len() == 0 {
        assert forall|off: int| 0 <= off < len implies x[off] == y[off] by {
            assert(alike(image, a, b, off));
        }
        assert(x =~= y);
    } else {
        let d = s.diffs[0];
        assert(x[d.off as int] == d.a && y[d.off as int] == d.b);
    }
}

proof fn lemma_scan_to(
    dev: Device,
    image: Seq<u8>,
    a: u64,
    b: u64,
    len: int,
    scanned: int,
    diffs: Seq<ByteDiff>,
)
    requires
        holds_image(dev, image),
        image.len() <= u64::MAX,
        a + len <= image.len(),
        b + len <= image.len(),
        0 <= scanned <= len,
        differences_to(image, a, b, diffs, scanned),
    ensures
        ({
            let s = tables::scan_from(dev, a, b, len, scanned, diffs);
            &&& !s.stopped
            &&& differences_to(image, a, b, s.diffs, len)
            &&& s.diffs.len() == 0 ==> s.scanned >= len
        }),
    decreases len - scanned,
{
    if scanned < len && diffs.len() < 16 {
        let want: u64 = if len - scanned < 0x1_0000 { (len - scanned) as u64 } else { 0x1_0000 };
        let x = dev.read((a + scanned) as u64, want);
        let y = dev.read((b + scanned) as u64, want);
        assert(x == clipped_read(image, (a + scanned) as u64, want));
        assert(y == clipped_read(image, (b + scanned) as u64, want));
        assert(x.data.len() == want && y.data.len() == want);
        assert(forall|i: int| 0 <= i < want ==> x.data[i] == image[a + scanned + i]);
        assert(forall|i: int| 0 <= i < want ==> y.data[i] == image[b + scanned + i]);
        lemma_chunk_to(image, a, b, x.data, y.data, scanned, 0, want as nat, diffs);
        let more = tables::chunk_diffs(x.data, y.data, scanned, 0, want as nat, diffs);
        lemma_scan_to(dev, image, a, b, len, scanned + want, more);
    } else if diffs.len() == 16 {
        assert(differences_to(image, a, b, diffs, len)) by {
            assert forall|off: int| 0 <= off < len && !#[trigger] alike(image, a, b, off) implies lists(
                diffs,
                off,
            ) || (diffs.len() == 16 && off > diffs.last().off) by {
                if off >= scanned {
                    assert(diffs[15].off < scanned);
                }
            }
        }
    }
}

proof fn lemma_chunk_to(
    image: Seq<u8>,
    a: u64,
    b: u64,
    x: Seq<u8>,
    y: Seq<u8>,
    base: int,
    i: nat,
    n: nat,
    diffs: Seq<ByteDiff>,
)
    requires
        i <= n == x.len(),
        n == y.len(),
        0 <= base,
        base + n <= u64::MAX,
        forall|k: int| 0 <= k < n ==> x[k] == image[a + base + k],
        forall|k: int| 0 <= k < n ==> y[k] == image[b + base + k],
        differences_to(image, a, b, diffs, base + i),
    ensures
        differences_to(image, a, b, tables::chunk_diffs(x, y, base, i, n, diffs), base + n),
    decreases n - i,
{
    if i < n && diffs.len() < 16 {
        let off = base + i;
        assert(x[i as int] == image[a + off] && y[i as int] == image[b + off]);
        if x[i as int] != y[i as int] {
            let d = ByteDiff { off: off as u64, a: x[i as int], b: y[i as int] };
            let more = diffs.push(d);
            assert forall|o: int| 0 <= o < off + 1 && !#[trigger] alike(image, a, b, o) implies lists(
                more,
                o,
            ) || (more.len() == 16 && o > more.last().off) by {
                if o == off {
                    assert(more[diffs.len() as int].off == off);
                } else {
                    assert(lists(diffs, o));
                    let k = choose|k: int| 0 <= k < diffs.len() && (#[trigger] diffs[k]).off == o;
                    assert(more[k].off == o);
                }
            }
            assert(differences_to(image, a, b, more, off + 1));
            lemma_chunk_to(image, a, b, x, y, base, i + 1, n, more);
        } else {
            assert(alike(image, a, b, off));
            lemma_chunk_to(image, a, b, x, y, base, i + 1, n, diffs);
        }
    } else if i < n {
        assert forall|off: int| 0 <= off < base + n && !#[trigger] alike(image, a, b, off) implies lists(
            diffs,
            off,
        ) || (diffs.len() == 16 && off > diffs.last().off) by {
            if off >= base + i {
                assert(diffs[15].off < base + i);
            }
        }
    }
}

/// What an entry of a table is told: the first two are not clusters; of the others free,
/// bad, ending and leading outside the volume are told, each exactly when it is so.
pub proof fn lemma_table_entries_are_judged(g: Geom, c: int, v: u32)
    requires
        c >= 0,
    ensures
        ({
            let told = tables::value_finding(g, c, v);
            &&& told == Some(Finding::MediaEntry { media: (v % 256) as u64 }) <==> c == 0
            &&& told == Some(Finding::SecondEntry) <==> c == 1
            &&& told == Some(Finding::FreeEntry) <==> c >= 2 && v == 0
            &&& told == Some(Finding::BadEntry { cluster: c as u64 }) <==> c >= 2 && v != 0 && v
                == g.kind.bad()
            &&& told == Some(Finding::EndEntry) <==> c >= 2 && v >= g.kind.eoc()
            &&& told is None <==> c >= 2 && v != g.kind.bad() && v < g.kind.eoc() && g.sane && 2 <= v
                <= g.last()
        }),
{
}

/// A table's preview has a row for each entry it can read, with the value that stands
/// there.
pub proof fn lemma_preview_shows_the_table(p: FatPreview, dev: Device, n: nat, c: int)
    requires
        0 <= c < n,
        c <= u64::MAX,
        chain::entry_of(dev, p.geom, p.fat as int, c) is Some,
    ensures
        exists|k: int|
            0 <= k < p.rows(dev, n).len() && (#[trigger] p.rows(dev, n)[k]).cluster == c && p.rows(
                dev,
                n,
            )[k].entry is Some && p.rows(dev, n)[k].entry->0.value == chain::entry_of(
                dev,
                p.geom,
                p.fat as int,
                c,
            )->0,
    decreases n,
{
    let all = p.rows(dev, n);
    let before = p.rows(dev, (n - 1) as nat);
    let v = chain::entry_of(dev, p.geom, p.fat as int, c)->0;
    if c < n - 1 {
        lemma_preview_shows_the_table(p, dev, (n - 1) as nat, c);
        let k = choose|k: int|
            0 <= k < before.len() && (#[trigger] before[k]).cluster == c && before[k].entry is Some
                && before[k].entry->0.value == v;
        assert(all[k] == before[k]);
    } else {
        assert(p.row(dev, c) is Some);
        assert(all[before.len() as int] == p.row(dev, c)->0);
    }
}

// -------------------------------------------------------------------- boot sectors

/// What a usable boot sector is told, each exactly when it is so: a volume that ends past
/// the device, a media byte that its FAT does not repeat, a type that is not the one its
/// clusters make it, and a signature that is not there.
pub proof fn lemma_boot_sector_is_judged(dev: Device, b: Seq<u8>, g: Geom)
    requires
        b.len() == 512,
        g.sane,
        g.base + g.total_sectors * g.bytes_per_sector <= u64::MAX,
        g.total_sectors * g.bytes_per_sector >= 512,
    ensures
        boot::extent_findings(dev, b, g).len() == 0 <==> g.base + g.total_sectors * g.bytes_per_sector
            <= dev.len,
        chain::entry_of(dev, g, 0, 0) matches Some(v) ==> (boot::media_findings(dev, b, g).len() == 0
            <==> v % 256 == b[21]),
        boot::signature_findings(b).len() == 0 <==> b[510] == 0x55 && b[511] == 0xAA,
        g.kind == FatKind::Fat12 ==> (boot::says_kind(b, g.kind) <==> b.subrange(54, 59) == seq![
            'F' as u8,
            'A' as u8,
            'T' as u8,
            '1' as u8,
            '2' as u8,
        ]),
        g.kind == FatKind::Fat16 ==> (boot::says_kind(b, g.kind) <==> b.subrange(54, 59) == seq![
            'F' as u8,
            'A' as u8,
            'T' as u8,
            '1' as u8,
            '6' as u8,
        ]),
        g.kind == FatKind::Fat32 ==> (boot::says_kind(b, g.kind) <==> b.subrange(82, 87) == seq![
            'F' as u8,
            'A' as u8,
            'T' as u8,
            '3' as u8,
            '2' as u8,
        ]),
        ({
            let told = boot::ext_findings(b, g);
            let is_32 = g.kind == FatKind::Fat32;
            &&& told.contains(Finding::NoBackupSector) <==> is_32 && number(b, 50, 2) == 0
            &&& told.contains(
                Finding::RootClusterOutside { cluster: g.root_cluster, last: g.last() },
            ) <==> is_32 && !(2 <= g.root_cluster <= g.last())
            &&& told.contains(
                Finding::MirroringOff {
                    live: (b[40] % 16) as u64,
                    stale: if g.num_fats == 0 { 0 } else { (g.num_fats - 1) as u64 },
                },
            ) <==> is_32 && b[40] >= 128
        }),
{
    broadcast use vstd::seq_lib::lemma_seq_concat_contains_all_elements;
    broadcast use vstd::seq_lib::lemma_seq_empty_contains_nothing;
    broadcast use lemma_when;

    lemma_numbers_are_little_endian(b, 50);
    let o: int = if g.kind == FatKind::Fat32 { 82 } else { 54 };
    let s = b.subrange(o, o + 5);
    assert(s[0] == b[o] && s[1] == b[o + 1] && s[2] == b[o + 2] && s[3] == b[o + 3] && s[4] == b[o
        + 4]);
    let third: u8 = if g.kind == FatKind::Fat32 { 0x33 } else { 0x31 };
    let fourth: u8 = if g.kind == FatKind::Fat16 { 0x36 } else { 0x32 };
    let want = seq![0x46u8, 0x41, 0x54, third, fourth];
    if boot::says_kind(b, g.kind) {
        assert(s =~= want);
    }
    assert(want[0] == 0x46 && want[1] == 0x41 && want[2] == 0x54 && want[3] == third && want[4]
        == fourth);
    let flags = common::le16(b, 40);
    assert((flags / 128) % 2 == 1 <==> b[40] >= 128);
    assert(flags % 16 == b[40] % 16);
}

/// A backup boot sector stands in the sector that the boot sector names. It agrees where
/// the first 90 bytes do; otherwise the first byte that does not is named.
pub proof fn lemma_backup_is_compared(dev: Device, g: Geom, b: Seq<u8>, at: u64)
    requires
        b.len() == 512,
        number(b, 50, 2) > 0,
        at == number(b, 50, 2) * g.bytes_per_sector + g.base,
        dev.read(at, 512).data.len() == 512,
    ensures
        ({
            let copy = dev.read(at, 512).data;
            let told = boot::backup_of(dev, g, b).finding;
            &&& boot::backup_of(dev, g, b).sector == number(b, 50, 2)
            &&& told is BackupSame <==> copy.take(90) == b.take(90)
            &&& told matches Finding::BackupDiffers { offset } ==> offset < 90 && copy[offset as int]
                != b[offset as int] && copy.take(offset as int) == b.take(offset as int)
            &&& told is BackupSame || told is BackupDiffers
        }),
{
    lemma_numbers_are_little_endian(b, 50);
    let copy = dev.read(at, 512).data;
    let x = copy.take(90);
    let y = b.take(90);
    assert(forall|i: int| 0 <= i < 90 ==> x[i] == #[trigger] copy[i]);
    assert(forall|i: int| 0 <= i < 90 ==> y[i] == #[trigger] b[i]);
    if boot::same_head(copy, b) {
        assert(x =~= y);
    } else {
        let i = choose|i: int| 0 <= i < 90 && copy[i] != b[i];
        lemma_first_difference(b, copy, 0, i);
        let offset = boot::first_difference(b, copy, 0) as int;
        assert(copy.take(offset) =~= b.take(offset));
        assert(x[i] != y[i]);
    }
}

proof fn lemma_first_difference(a: Seq<u8>, b: Seq<u8>, n: nat, i: int)
    requires
        a.len() == b.len(),
        a.len() <= u64::MAX,
        n <= i < a.len(),
        a[i] != b[i],
    ensures
        ({
            let d = boot::first_difference(a, b, n) as int;
            &&& n <= d <= i
            &&& a[d] != b[d]
            &&& forall|j: int| n <= j < d ==> a[j] == b[j]
        }),
    decreases i - n,
{
    if a[n as int] == b[n as int] {
        lemma_first_difference(a, b, n + 1, i);
    }
}

/// The free-space hints stand where the boot sector says, and are told where they cannot be.
pub proof fn lemma_hints_are_judged(dev: Device, g: Geom, b: Seq<u8>, at: u64)
    requires
        b.len() == 512,
        at == number(b, 48, 2) * g.bytes_per_sector + g.base,
        dev.read(at, 512).data.len() == 512,
    ensures
        ({
            let info = dev.read(at, 512).data;
            let free = number(info, 488, 4);
            let next = number(info, 492, 4);
            let told = boot::fsinfo_of(dev, g, b).findings;
            &&& boot::fsinfo_of(dev, g, b).sector == number(b, 48, 2)
            &&& told.contains(
                Finding::FreeCountHigh { free: free as u64, clusters: g.cluster_count },
            ) <==> free != 0xFFFF_FFFF && free > g.cluster_count
            &&& told.contains(Finding::NextFreeOutside { cluster: next as u64, last: g.last() })
                <==> next != 0xFFFF_FFFF && next != 0 && !(g.sane && 2 <= next <= g.last())
        }),
{
    broadcast use vstd::seq_lib::lemma_seq_concat_contains_all_elements;
    broadcast use lemma_when;

    let info = dev.read(at, 512).data;
    lemma_numbers_are_little_endian(b, 48);
    lemma_numbers_are_little_endian(info, 488);
    lemma_numbers_are_little_endian(info, 492);
}

/// The root directory is the chain that the boot sector names on FAT32; on the others it is
/// all of the area between the tables and the data.
pub proof fn lemma_where_the_root_is(b: Seq<u8>, base: u64)
    requires
        geometry::geom_of(geometry::bpb_of(b), base).sane,
    ensures
        ({
            let g = geometry::geom_of(geometry::bpb_of(b), base);
            let root = volume::root_of(g);
            &&& g.kind == FatKind::Fat32 ==> (root.dir matches Some(d) ==> d.source == DirSource::Chain(
                g.root_cluster,
            ) && d.depth == 0 && root.span.at == g.cluster_at(g.root_cluster as int)->0)
            &&& g.kind == FatKind::Fat32 ==> (root.dir is Some <==> g.cluster_at(g.root_cluster as int) is Some)
            &&& g.kind != FatKind::Fat32 ==> root.span.at == g.root_dir_start && root.span.at
                + root.span.len == g.data_start && (root.dir matches Some(d) && d.source
                == DirSource::Fixed(root.span.at, root.span.len))
        }),
{
    laws::lemma_regions_follow_each_other(b, base);
    let g = geometry::geom_of(geometry::bpb_of(b), base);
    assert(g.root_dir_sectors * g.bytes_per_sector <= u64::MAX);
}

// --------------------------------------------------------------------------- scores

/// A sector has a score exactly when it is signed, starts with a jump, names neither exFAT
/// nor NTFS, and gives possible sector and cluster sizes, reserved sectors and FATs. A full
/// score takes a usable layout on the device, a known media byte, an extended signature
/// and the letters FAT.
pub proof fn lemma_what_a_score_takes(dev: Device, at: u64)
    requires
        !dev.read(at, 512).refused(),
        dev.read(at, 512).data.len() == 512,
    ensures
        ({
            let b = dev.read(at, 512).data;
            let bps = number(b, 11, 2);
            let spc = b[13];
            let score = volume::score_of(dev, at);
            let g = volume::geometry_of(dev, b, at);
            let sig: int = if g.kind == FatKind::Fat32 { 66 } else { 38 };
            let tag: int = if g.kind == FatKind::Fat32 { 82 } else { 54 };
            &&& score > 0 <==> {
                &&& b[510] == 0x55 && b[511] == 0xAA
                &&& b[0] == 0xE9 || (b[0] == 0xEB && b[2] == 0x90)
                &&& b.subrange(3, 11) != seq!['E' as u8, 'X' as u8, 'F' as u8, 'A' as u8, 'T' as u8, 0x20, 0x20, 0x20]
                &&& b.subrange(3, 11) != seq!['N' as u8, 'T' as u8, 'F' as u8, 'S' as u8, 0x20, 0x20, 0x20, 0x20]
                &&& bps == 512 || bps == 1024 || bps == 2048 || bps == 4096
                &&& spc == 1 || spc == 2 || spc == 4 || spc == 8 || spc == 16 || spc == 32 || spc == 64
                    || spc == 128
                &&& number(b, 14, 2) > 0
                &&& b[16] > 0
            }
            &&& score == 40 <==> score > 0 && !g.sane
            &&& score > 40 ==> 65 <= score <= 100
            &&& score == 100 <==> {
                &&& score > 40
                &&& b[21] == 0xF0 || b[21] >= 0xF8
                &&& b[sig] == 0x28 || b[sig] == 0x29
                &&& b[tag] == 'F' as u8 && b[tag + 1] == 'A' as u8 && b[tag + 2] == 'T' as u8
                &&& at + g.claimed() <= dev.len
            }
        }),
{
    let b = dev.read(at, 512).data;
    lemma_numbers_are_little_endian(b, 11);
    lemma_numbers_are_little_endian(b, 14);
    assert(volume::exfat_name() =~= seq![
        'E' as u8,
        'X' as u8,
        'F' as u8,
        'A' as u8,
        'T' as u8,
        0x20,
        0x20,
        0x20,
    ]);
    assert(volume::ntfs_name() =~= seq![
        'N' as u8,
        'T' as u8,
        'F' as u8,
        'S' as u8,
        0x20,
        0x20,
        0x20,
        0x20,
    ]);
}

/// How much of a volume is missing from a device too short for it: the bytes past its end,
/// and the sectors that these are a part of.
pub proof fn lemma_missing_bytes_are_counted(dev: Device, b: Seq<u8>, g: Geom)
    requires
        b.len() == 512,
        g.sane,
        0 < g.bytes_per_sector <= 4096,
        512 <= g.total_sectors * g.bytes_per_sector,
        dev.len < g.base + g.total_sectors * g.bytes_per_sector <= u64::MAX,
    ensures
        ({
            let over = g.base + g.total_sectors * g.bytes_per_sector - dev.len;
            let told = boot::extent_findings(dev, b, g);
            &&& told.len() == 1
            &&& number(b, 19, 2) != 0 ==> (told[0] matches Finding::VolumePast16 {
                total,
                over: o,
                lost,
            } && total == g.total_sectors && o == over && (lost - 1) * g.bytes_per_sector < over <= lost
                * g.bytes_per_sector)
            &&& number(b, 19, 2) == 0 ==> (told[0] matches Finding::VolumePast32 {
                total,
                over: o,
                lost,
            } && total == g.total_sectors && o == over && (lost - 1) * g.bytes_per_sector < over <= lost
                * g.bytes_per_sector)
        }),
{
    lemma_numbers_are_little_endian(b, 19);
    let over = g.base + g.claimed() - dev.len;
    let s = g.bytes_per_sector as int;
    div_mod::lemma_fundamental_div_mod(over, s);
    div_mod::lemma_mod_bound(over, s);
    div_mod::lemma_div_pos_is_pos(over, s);
    let q = over / s;
    assert((q + 1) * s == q * s + s && (q - 1) * s == q * s - s && s * q == q * s) by (nonlinear_arith);
    let rest = over % s;
    assert(0 <= q && q <= over && (rest > 0 ==> q + 1 <= over)) by (nonlinear_arith)
        requires
            over == s * q + rest,
            0 <= rest,
            0 <= q,
            s >= 1,
    ;
    let lost = common::ceil_div(over, s);
    assert((lost - 1) * s < over <= lost * s);
    assert(g.claimed() == g.total_sectors * g.bytes_per_sector);
}

/// What the numbers of a boot sector are told, each exactly when it is so.
pub proof fn lemma_boot_numbers_are_judged(b: Seq<u8>)
    requires
        b.len() == 512,
    ensures
        ({
            let told = geometry::size_findings(geometry::bpb_of(b));
            let bps = number(b, 11, 2);
            let spc = b[13];
            &&& told.contains(Finding::SectorSize { bytes_per_sector: bps as u64 }) <==> !(bps == 512 || bps
                == 1024 || bps == 2048 || bps == 4096)
            &&& told.contains(Finding::ClusterSize { sectors_per_cluster: spc as u64 }) <==> !(spc == 1
                || spc == 2 || spc == 4 || spc == 8 || spc == 16 || spc == 32 || spc == 64 || spc == 128)
            &&& told.contains(
                Finding::BothTotals {
                    total_16: number(b, 19, 2) as u64,
                    total_32: number(b, 32, 4) as u64,
                },
            ) <==> number(b, 19, 2) != 0 && number(b, 32, 4) != 0
            &&& told.contains(Finding::NoFatSize) <==> number(b, 22, 2) == 0 && number(b, 36, 4) == 0
            &&& told.contains(Finding::NoVolumeSize) <==> number(b, 19, 2) == 0 && number(b, 32, 4) == 0
        }),
{
    broadcast use vstd::seq_lib::lemma_seq_concat_contains_all_elements;
    broadcast use vstd::seq_lib::lemma_seq_empty_contains_nothing;
    broadcast use lemma_when;

    lemma_numbers_are_little_endian(b, 11);
    lemma_numbers_are_little_endian(b, 19);
    lemma_numbers_are_little_endian(b, 22);
    lemma_numbers_are_little_endian(b, 32);
    lemma_numbers_are_little_endian(b, 36);
}

/// A FAT32 volume has no fixed root and no 16-bit FAT size, and the others have a root: each
/// is told when it is not so.
pub proof fn lemma_kinds_are_judged(b: Seq<u8>, base: u64)
    requires
        b.len() == 512,
        geometry::geom_of(geometry::bpb_of(b), base).sane,
    ensures
        ({
            let r = geometry::bpb_of(b);
            let g = geometry::geom_of(r, base);
            let told = geometry::layout_findings(r, base);
            let is_32 = g.cluster_count >= 65525;
            &&& told.contains(
                Finding::FatSizeBoth {
                    size_16: r.fat_size_16,
                    clusters: g.cluster_count,
                    size_32: r.fat_size_32,
                },
            ) <==> is_32 && r.fat_size_16 != 0
            &&& told.contains(
                Finding::RootEntriesSet { root_entries: r.root_entries, clusters: g.cluster_count },
            ) <==> is_32 && r.root_entries != 0
            &&& told.contains(Finding::RootEntriesZero { clusters: g.cluster_count, kind: g.kind }) <==> !is_32
                && r.root_entries == 0
        }),
{
    broadcast use vstd::seq_lib::lemma_seq_concat_contains_all_elements;
    broadcast use lemma_when;

    geometry::lemma_layout_bounds(geometry::bpb_of(b), base);
}

// ------------------------------------------------------------------------ the layout shown

/// A boot sector is shown in parts that follow each other: the parameter block, the part that
/// extends it, and the code up to the signature.
pub proof fn lemma_parts_of_a_boot_sector(
    dev: Device,
    b: Seq<u8>,
    refused: bool,
    g: Geom,
    told: Seq<Finding>,
    at: u64,
)
    requires
        b.len() == 512,
        at + 512 <= u64::MAX,
    ensures
        ({
            let s = boot::boot_of(dev, b, refused, g, told, at);
            let ext: int = if g.kind == FatKind::Fat32 { 54 } else { 26 };
            &&& s.span.at == at && s.span.len == 512
            &&& s.bpb.at == at
            &&& s.bpb.fields == desc::fields_of(fat_desc::bpb_fields(), b.subrange(0, 36), at)
            &&& s.ebpb.at == at + 36
            &&& g.kind == FatKind::Fat32 ==> s.ebpb.fields == desc::fields_of(
                fat_desc::ebpb32_fields(),
                b.subrange(36, 90),
                (at + 36) as u64,
            )
            &&& g.kind != FatKind::Fat32 ==> s.ebpb.fields == desc::fields_of(
                fat_desc::ebpb16_fields(),
                b.subrange(36, 62),
                (at + 36) as u64,
            )
            &&& s.code.at == at + 36 + ext
            &&& s.code.at + s.code.len == at + 510
        }),
{
    assert(window(b, 0, 36) == b.subrange(0, 36));
    assert(window(b, 0x24, 54) == b.subrange(36, 90));
    assert(window(b, 0x24, 26) == b.subrange(36, 62));
}

/// Each copy of the FAT is shown where it is, up to eight.
pub proof fn lemma_copies_are_shown(g: Geom, n: nat, i: int)
    requires
        0 <= i < n,
        n <= 255,
        g.fat_start + n * (g.fat_size * g.bytes_per_sector) <= u64::MAX,
    ensures
        tables::tables_of(g, n).len() == n,
        ({
            let t = tables::tables_of(g, n)[i];
            let len = g.fat_size * g.bytes_per_sector;
            &&& t.span.at == g.fat_start + i * len
            &&& t.span.len == len
            &&& t.preview.fat == i
            &&& t.preview.geom == g
        }),
    decreases n,
{
    let len = g.fat_size * g.bytes_per_sector;
    assert(len >= 0) by (nonlinear_arith)
        requires
            len == g.fat_size * g.bytes_per_sector,
            g.fat_size >= 0,
            g.bytes_per_sector >= 0,
    ;
    let k = n - 1;
    assert(n * len == k * len + len && 0 <= k * len && len <= n * len) by (nonlinear_arith)
        requires
            n >= 1,
            k == n - 1,
            len >= 0,
    ;
    if n > 1 {
        lemma_copies_are_shown(g, (n - 1) as nat, if i < n - 1 { i } else { 0 });
    }
}

/// A preview shows the first 64 entries of a table, or all where these are fewer, and tells
/// when the second says that a FAT32 volume was not put away cleanly.
pub proof fn lemma_previews(p: FatPreview, dev: Device, c: int)
    requires
        chain::entry_of(dev, p.geom, p.fat as int, c) is Some,
        0 <= c <= u64::MAX,
        p.geom.cluster_count <= 0xFFFF_FFFF,
    ensures
        p.last_shown() == if p.geom.cluster_count + 2 < 64 { p.geom.cluster_count + 2 } else { 64 },
        p.row(dev, c) matches Some(r) && {
            let v = chain::entry_of(dev, p.geom, p.fat as int, c)->0;
            r.also == Some(Finding::VolumeDirty) <==> c == 1 && p.geom.kind == FatKind::Fat32 && (v
                / 0x800_0000) % 2 == 0
        },
{
}

/// The two sides of a comparison are the copies it names, from their starts.
pub proof fn lemma_which_tables_are_compared(dev: Device, g: Geom, a: u64, b: u64, len: u64)
    ensures
        ({
            let c = tables::comparison_of(dev, g, a, b, len);
            &&& c.a == a && c.b == b
            &&& g.fat_at(a as int) matches Some(x) ==> g.fat_at(b as int) matches Some(y) ==> c.diffs
                == tables::scan_of(dev, x, y, len).diffs && c.matches == Some(c.diffs.len() == 0)
        }),
{
}

} // verus!
