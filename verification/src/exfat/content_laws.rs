//! What exFAT's metadata comes down to, said of its bytes.

use crate::bytes::{lemma_numbers_are_little_endian, number};
use crate::checksum;
use crate::common;
use crate::exfat::bitmap;
use crate::exfat::boot;
use crate::exfat::directory;
use crate::exfat::directory::Scan;
use crate::exfat::entry;
use crate::exfat::entry_set;
use crate::exfat::entry_set::{Role, SetFacts};
use crate::exfat::fat_table;
use crate::exfat::finding;
use crate::exfat::finding::Finding;
use crate::exfat::geometry::Geometry;
use crate::exfat::types;
use crate::exfat::upcase;
use crate::exfat::upcase::Mapping;
use crate::source::Device;
use crate::text;
use crate::text_laws;
use vstd::arithmetic::div_mod;
use vstd::prelude::*;

verus! {

broadcast proof fn lemma_when(cond: bool, f: Finding, g: Finding)
    ensures
        #[trigger] finding::when(cond, f).contains(g) <==> cond && g == f,
{
    if cond && g == f {
        assert(finding::when(cond, f)[0] == g);
    }
}

broadcast proof fn lemma_single(f: Finding, g: Finding)
    ensures
        #[trigger] seq![f].contains(g) <==> f == g,
{
    if f == g {
        assert(seq![f][0] == g);
    }
}

// -------------------------------------------------------------------------- bitmap

/// The eight bits of a byte, lowest first.
pub open spec fn bits_of(b: u8) -> Seq<bool> {
    seq![
        b % 2 == 1,
        (b / 2) % 2 == 1,
        (b / 4) % 2 == 1,
        (b / 8) % 2 == 1,
        (b / 16) % 2 == 1,
        (b / 32) % 2 == 1,
        (b / 64) % 2 == 1,
        b >= 128,
    ]
}

/// How many of the first `n` clusters the bitmap marks.
pub open spec fn marked(bits: Seq<u8>, n: nat) -> nat
    decreases n,
{
    if n == 0 {
        0
    } else {
        marked(bits, (n - 1) as nat) + if bitmap::bit(bits, n - 1) {
            1nat
        } else {
            0nat
        }
    }
}

/// Cluster `i + 2` is the bit `i % 8`, counted from the lowest, of byte `i / 8`.
pub proof fn lemma_each_cluster_has_its_bit(bits: Seq<u8>, byte: int, k: int)
    requires
        0 <= byte < bits.len(),
        0 <= k < 8,
    ensures
        bitmap::bit(bits, 8 * byte + k) == bits_of(bits[byte])[k],
{
    let i = 8 * byte + k;
    assert(i / 8 == byte && i % 8 == k);
    let b = bits[byte];
    if k == 0 {
        assert(bits_of(b)[0] == (b % 2 == 1));
    } else if k == 1 {
        assert(bits_of(b)[1] == ((b / 2) % 2 == 1));
    } else if k == 2 {
        assert(bits_of(b)[2] == ((b / 4) % 2 == 1));
    } else if k == 3 {
        assert(bits_of(b)[3] == ((b / 8) % 2 == 1));
    } else if k == 4 {
        assert(bits_of(b)[4] == ((b / 16) % 2 == 1));
    } else if k == 5 {
        assert(bits_of(b)[5] == ((b / 32) % 2 == 1));
    } else if k == 6 {
        assert(bits_of(b)[6] == ((b / 64) % 2 == 1));
    } else {
        assert(bits_of(b)[7] == (b >= 128));
        assert(b / 128 == if b >= 128 { 1int } else { 0 });
    }
}

/// The clusters in use are as many as the bits that are set, one for one.
pub proof fn lemma_allocated_clusters_are_the_bits_set(bits: Seq<u8>)
    ensures
        bitmap::all_ones(bits) == marked(bits, 8 * bits.len()),
    decreases bits.len(),
{
    if bits.len() > 0 {
        let front = bits.drop_last();
        let n = front.len();
        lemma_allocated_clusters_are_the_bits_set(front);
        lemma_marked_prefix(front, bits, 8 * n);
        let b = bits[n as int];
        assert(8 * bits.len() == 8 * n + 8);
        lemma_each_cluster_has_its_bit(bits, n as int, 0);
        lemma_each_cluster_has_its_bit(bits, n as int, 1);
        lemma_each_cluster_has_its_bit(bits, n as int, 2);
        lemma_each_cluster_has_its_bit(bits, n as int, 3);
        lemma_each_cluster_has_its_bit(bits, n as int, 4);
        lemma_each_cluster_has_its_bit(bits, n as int, 5);
        lemma_each_cluster_has_its_bit(bits, n as int, 6);
        lemma_each_cluster_has_its_bit(bits, n as int, 7);
        lemma_ones(b);
        let m = 8 * n;
        assert(marked(bits, m + 1) == marked(bits, m) + bit_as(b, 0));
        assert(marked(bits, m + 2) == marked(bits, m + 1) + bit_as(b, 1));
        assert(marked(bits, m + 3) == marked(bits, m + 2) + bit_as(b, 2));
        assert(marked(bits, m + 4) == marked(bits, m + 3) + bit_as(b, 3));
        assert(marked(bits, m + 5) == marked(bits, m + 4) + bit_as(b, 4));
        assert(marked(bits, m + 6) == marked(bits, m + 5) + bit_as(b, 5));
        assert(marked(bits, m + 7) == marked(bits, m + 6) + bit_as(b, 6));
        assert(marked(bits, m + 8) == marked(bits, m + 7) + bit_as(b, 7));
    }
}

spec fn bit_as(b: u8, k: int) -> nat {
    if bits_of(b)[k] {
        1
    } else {
        0
    }
}

proof fn lemma_ones(b: u8)
    ensures
        bitmap::ones(b) == bit_as(b, 0) + bit_as(b, 1) + bit_as(b, 2) + bit_as(b, 3) + bit_as(b, 4)
            + bit_as(b, 5) + bit_as(b, 6) + bit_as(b, 7),
{
    let b1 = b / 2;
    let b2 = b1 / 2;
    let b3 = b2 / 2;
    let b4 = b3 / 2;
    let b5 = b4 / 2;
    let b6 = b5 / 2;
    let b7 = b6 / 2;
    let b8 = b7 / 2;
    assert(b2 == b / 4 && b3 == b / 8 && b4 == b / 16 && b5 == b / 32 && b6 == b / 64 && b7 == b / 128
        && b8 == 0);
    assert(b7 == if b >= 128 { 1int } else { 0 });
    lemma_ones_step(b);
    lemma_ones_step(b1);
    lemma_ones_step(b2);
    lemma_ones_step(b3);
    lemma_ones_step(b4);
    lemma_ones_step(b5);
    lemma_ones_step(b6);
    lemma_ones_step(b7);
    assert(bitmap::ones(b8) == 0);
    assert(bit_as(b, 0) == b % 2 && bit_as(b, 1) == b1 % 2 && bit_as(b, 2) == b2 % 2 && bit_as(b, 3)
        == b3 % 2);
    assert(bit_as(b, 4) == b4 % 2 && bit_as(b, 5) == b5 % 2 && bit_as(b, 6) == b6 % 2 && bit_as(b, 7)
        == b7 % 2);
}

proof fn lemma_ones_step(b: u8)
    ensures
        bitmap::ones(b) == b % 2 + bitmap::ones(b / 2),
{
}

proof fn lemma_marked_prefix(a: Seq<u8>, b: Seq<u8>, n: nat)
    requires
        n <= 8 * a.len(),
        a.len() <= b.len(),
        forall|i: int| 0 <= i < a.len() ==> a[i] == b[i],
    ensures
        marked(a, n) == marked(b, n),
    decreases n,
{
    if n > 0 {
        lemma_marked_prefix(a, b, (n - 1) as nat);
        assert(0 <= (n - 1) / 8 < a.len());
    }
}

/// Use is told of the clusters that exist: those marked, those not marked, and the whole
/// percentage, rounded down.
pub proof fn lemma_usage_adds_up(g: Geometry, bits: Seq<u8>)
    requires
        g.cluster_count == 8 * bits.len(),
        g.cluster_count <= 0xFFFF_FFFF,
    ensures
        ({
            let u = bitmap::usage_of(g, bits);
            &&& u.allocated_clusters == marked(bits, g.cluster_count as nat)
            &&& u.allocated_clusters + u.free_clusters == g.cluster_count
            &&& g.cluster_count > 0 ==> u.percent * g.cluster_count <= 100 * u.allocated_clusters
                < (u.percent + 1) * g.cluster_count
        }),
{
    lemma_allocated_clusters_are_the_bits_set(bits);
    lemma_marked_bound(bits, g.cluster_count as nat);
    let a = 100 * bitmap::all_ones(bits) as int;
    let n = g.cluster_count as int;
    if n > 0 {
        div_mod::lemma_fundamental_div_mod(a, n);
        div_mod::lemma_mod_bound(a, n);
        let q = a / n;
        assert((q + 1) * n == q * n + n && n * q == q * n) by (nonlinear_arith);
        assert(0 <= q <= 100) by (nonlinear_arith)
            requires
                q == a / n,
                0 <= a <= 100 * n,
                n > 0,
        ;
    }
}

proof fn lemma_marked_bound(bits: Seq<u8>, n: nat)
    ensures
        marked(bits, n) <= n,
    decreases n,
{
    if n > 0 {
        lemma_marked_bound(bits, (n - 1) as nat);
    }
}

/// The FAT and the bitmap are held against each other cluster by cluster: a cluster with a
/// FAT entry whose bit is clear is listed, the first eight of them, and a cluster with its
/// bit set but no entry is counted.
pub proof fn lemma_crosscheck_is_cluster_by_cluster(fat: Seq<u8>, bits: Seq<u8>, n: nat, i: int)
    requires
        0 <= i < n,
        n <= 0xFFFF_FFFF,
    ensures
        ({
            let listed = bitmap::chained_but_free(fat, bits, n);
            let cluster = (i + 2) as u64;
            let entry = number(fat, 4 * i, 4);
            &&& listed.len() <= 8
            &&& listed.contains(cluster) ==> entry != 0 && !bitmap::bit(bits, i)
            &&& entry != 0 && !bitmap::bit(bits, i) && listed.len() < 8 ==> listed.contains(cluster)
            &&& entry == 0 && bitmap::bit(bits, i) ==> bitmap::without_chain(fat, bits, n) > 0
            &&& bitmap::without_chain(fat, bits, n) == 0 ==> !(entry == 0 && bitmap::bit(bits, i))
        }),
    decreases n,
{
    lemma_numbers_are_little_endian(fat, 4 * i);
    lemma_stray(fat, bits, n, i);
    lemma_lone(fat, bits, n, i);
}

proof fn lemma_stray(fat: Seq<u8>, bits: Seq<u8>, n: nat, i: int)
    requires
        0 <= i <= 0xFFFF_FFFF,
        n <= 0xFFFF_FFFF,
    ensures
        ({
            let listed = bitmap::chained_but_free(fat, bits, n);
            &&& listed.len() <= 8
            &&& listed.contains((i + 2) as u64) ==> i < n && bitmap::chained_but_free_at(fat, bits, i)
            &&& i < n && bitmap::chained_but_free_at(fat, bits, i) && listed.len() < 8
                ==> listed.contains((i + 2) as u64)
        }),
    decreases n,
{
    if n > 0 {
        lemma_stray(fat, bits, (n - 1) as nat, i);
        let before = bitmap::chained_but_free(fat, bits, (n - 1) as nat);
        let all = bitmap::chained_but_free(fat, bits, n);
        let c = (i + 2) as u64;
        if all != before {
            assert(all == before.push((n + 1) as u64));
            assert(all[before.len() as int] == n + 1);
            if before.contains(c) {
                let k = choose|k: int| 0 <= k < before.len() && before[k] == c;
                assert(all[k] == c);
            }
            if all.contains(c) {
                let k = choose|k: int| 0 <= k < all.len() && all[k] == c;
                if k < before.len() {
                    assert(before[k] == c);
                }
            }
        }
    } else {
        assert(bitmap::chained_but_free(fat, bits, n) =~= Seq::<u64>::empty());
    }
}

proof fn lemma_lone(fat: Seq<u8>, bits: Seq<u8>, n: nat, i: int)
    requires
        0 <= i < n,
    ensures
        bitmap::allocated_without_chain_at(fat, bits, i) ==> bitmap::without_chain(fat, bits, n) > 0,
    decreases n,
{
    if i < n - 1 {
        lemma_lone(fat, bits, (n - 1) as nat, i);
    }
}

// ---------------------------------------------------------------------- up-case table

/// A table that spells out every unit maps each to the two bytes in its place, and lists
/// those that change.
pub proof fn lemma_plain_table_lists_what_changes(
    table: Seq<u8>,
    runs: Seq<(u64, u64)>,
    u: int,
)
    requires
        table.len() % 2 == 0,
        table.len() <= 0x2_0000,
        forall|k: int| 0 <= k && 2 * k + 1 < table.len() ==> #[trigger] plain_at(table, k) != 0xFFFF,
        0 <= u,
        2 * u + 1 < table.len(),
        plain_at(table, u) != u,
    ensures
        upcase::decoded(table, runs, 0, 0, 65536).contains(
            Mapping::Upper {
                unit: u as u32,
                upper: plain_at(table, u) as u16,
                at: upcase::byte_at(runs, 2 * u),
            },
        ),
{
    lemma_plain_from(table, runs, 0, 65536, u);
}

/// The number in place `k` of the table.
pub open spec fn plain_at(table: Seq<u8>, k: int) -> int {
    table[2 * k] + 256 * table[2 * k + 1]
}

proof fn lemma_plain_from(table: Seq<u8>, runs: Seq<(u64, u64)>, k: int, room: int, u: int)
    requires
        table.len() <= 0x2_0000,
        forall|j: int| 0 <= j && 2 * j + 1 < table.len() ==> #[trigger] plain_at(table, j) != 0xFFFF,
        0 <= k <= u,
        2 * u + 1 < table.len(),
        plain_at(table, u) != u,
        room >= 65536 - k,
    ensures
        upcase::decoded(table, runs, 2 * k, k as u32, room).contains(
            Mapping::Upper {
                unit: u as u32,
                upper: plain_at(table, u) as u16,
                at: upcase::byte_at(runs, 2 * u),
            },
        ),
    decreases u - k,
{
    broadcast use vstd::seq_lib::lemma_seq_concat_contains_all_elements;

    let row = Mapping::Upper {
        unit: u as u32,
        upper: plain_at(table, u) as u16,
        at: upcase::byte_at(runs, 2 * u),
    };
    assert(plain_at(table, k) != 0xFFFF);
    if k == u {
        assert(seq![row][0] == row);
        assert(seq![row].contains(row));
    } else {
        let v = plain_at(table, k);
        lemma_plain_from(table, runs, k + 1, if v != k { room - 1 } else { room }, u);
    }
}

/// A mark of all ones and a count say that so many units map to themselves: what follows
/// is for the units behind them.
pub proof fn lemma_marked_units_map_to_themselves(
    table: Seq<u8>,
    runs: Seq<(u64, u64)>,
    i: int,
    unit: u32,
    room: int,
)
    requires
        0 <= i,
        i + 3 < table.len(),
        table[i] == 0xFF,
        table[i + 1] == 0xFF,
        room > 0,
        unit + 0xFFFF <= u32::MAX,
    ensures
        ({
            let count = table[i + 2] + 256 * table[i + 3];
            let rows = upcase::decoded(table, runs, i, unit, room);
            &&& rows.len() > 0
            &&& rows[0] == (Mapping::Identity {
                unit,
                count: count as u32,
                at: upcase::byte_at(runs, i),
            })
            &&& rows.skip(1) == upcase::decoded(
                table,
                runs,
                i + 4,
                (unit + count) as u32,
                room - 1,
            )
        }),
{
    let count = common::le16(table, i + 2) as u32;
    let rest = upcase::decoded(table, runs, i + 4, (unit + count) as u32, room - 1);
    let row = Mapping::Identity { unit, count, at: upcase::byte_at(runs, i) };
    assert((seq![row] + rest).skip(1) =~= rest);
}

// ----------------------------------------------------------------------- boot region

/// The number in place `i` of a sector of words.
pub open spec fn word_at(sector: Seq<u8>, i: int) -> int {
    number(sector, 4 * i, 4)
}

/// The word in place `i` of the sector is the same as the first.
pub open spec fn same_copy(sector: Seq<u8>, i: int) -> bool {
    word_at(sector, i) == word_at(sector, 0)
}

/// Every copy of the boot checksum repeats the first: none is told to differ exactly when
/// all the sector's words are the same.
pub proof fn lemma_copies_differ_exactly_when(sector: Seq<u8>)
    ensures
        boot::differing_total(sector, sector.len() / 4) == 0 <==> forall|i: int|
            0 <= i < sector.len() / 4 ==> #[trigger] same_copy(sector, i),
        sector.len() >= 4 ==> boot::stored_in(sector) == Some(number(sector, 0, 4) as u64),
{
    lemma_numbers_are_little_endian(sector, 0);
    lemma_copies(sector, sector.len() / 4);
}

proof fn lemma_copies(sector: Seq<u8>, n: nat)
    requires
        4 * n <= sector.len(),
    ensures
        boot::differing_total(sector, n) == 0 <==> forall|i: int|
            0 <= i < n ==> #[trigger] same_copy(sector, i),
    decreases n,
{
    lemma_numbers_are_little_endian(sector, 0);
    if n > 1 {
        lemma_copies(sector, (n - 1) as nat);
        lemma_numbers_are_little_endian(sector, 4 * (n - 1));
        assert(boot::copy_differs(sector, n - 1) <==> !same_copy(sector, n - 1));
    } else {
        assert(forall|i: int| 0 <= i < n ==> #[trigger] same_copy(sector, i));
    }
}

/// The two boot regions are identical exactly when their bytes are. Where they are not,
/// each of the twelve sectors is named exactly when one of its bytes differs.
pub proof fn lemma_regions_are_compared(a: Seq<u8>, b: Seq<u8>, bps: u64, s: int)
    requires
        a.len() == 12 * bps,
        b.len() == 12 * bps,
        0 <= s < 12,
    ensures
        boot::sector_diffs(a, b, bps, 12).contains(s as u64) <==> exists|i: int|
            s * bps <= i < (s + 1) * bps && #[trigger] a[i] != b[i],
{
    lemma_sectors(a, b, bps, 12, s);
    assert((s + 1) * bps <= 12 * bps && 0 <= s * bps && (s + 1) * bps == s * bps + bps) by (nonlinear_arith)
        requires
            0 <= s < 12,
            bps >= 0,
    ;
    let x = a.subrange(s * bps, (s + 1) * bps);
    let y = b.subrange(s * bps, (s + 1) * bps);
    if x != y {
        if forall|j: int| 0 <= j < bps ==> x[j] == y[j] {
            assert(x =~= y);
        }
        let j = choose|j: int| 0 <= j < bps && x[j] != y[j];
        assert(a[s * bps + j] != b[s * bps + j]);
    }
    if exists|i: int| s * bps <= i < (s + 1) * bps && #[trigger] a[i] != b[i] {
        let i = choose|i: int| s * bps <= i < (s + 1) * bps && #[trigger] a[i] != b[i];
        assert(x[i - s * bps] != y[i - s * bps]);
    }
}

proof fn lemma_sectors(a: Seq<u8>, b: Seq<u8>, bps: u64, n: nat, s: int)
    requires
        n <= 12,
        0 <= s < 12,
    ensures
        boot::sector_diffs(a, b, bps, n).contains(s as u64) <==> s < n && boot::sector_differs(
            a,
            b,
            bps,
            s,
        ),
    decreases n,
{
    if n > 0 {
        lemma_sectors(a, b, bps, (n - 1) as nat, s);
        let before = boot::sector_diffs(a, b, bps, (n - 1) as nat);
        let all = boot::sector_diffs(a, b, bps, n);
        if boot::sector_differs(a, b, bps, n - 1) {
            assert(all[before.len() as int] == n - 1);
            if before.contains(s as u64) {
                let k = choose|k: int| 0 <= k < before.len() && before[k] == s as u64;
                assert(all[k] == s);
            }
            if all.contains(s as u64) {
                let k = choose|k: int| 0 <= k < all.len() && all[k] == s as u64;
                if k < before.len() {
                    assert(before[k] == s);
                }
            }
        }
    } else {
        assert(boot::sector_diffs(a, b, bps, n) =~= Seq::<u64>::empty());
    }
}

/// What a boot region is verified by: eleven sectors, the checksum in the twelfth, and the
/// sum that the eleven have.
pub proof fn lemma_boot_checksum_is_judged(dev: Device, g: Geometry, first: u64, from: u64, at: u64)
    requires
        g.sector_at(first as int) == Some(from),
        g.sector_at(first + 11) == Some(at),
        g.bytes_per_sector >= 4,
        11 * g.bytes_per_sector <= u64::MAX,
        !dev.read(from, (11 * g.bytes_per_sector) as u64).refused(),
        !dev.read(at, g.bytes_per_sector).refused(),
        dev.read(at, g.bytes_per_sector).data.len() == g.bytes_per_sector,
    ensures
        ({
            let covered = dev.read(from, (11 * g.bytes_per_sector) as u64).data;
            let sector = dev.read(at, g.bytes_per_sector).data;
            let c = boot::boot_checksum_of(dev, g, first);
            &&& c.matches <==> number(sector, 0, 4) == boot::region_sum(covered)
            &&& c.computed == boot::region_sum(covered)
            &&& c.stored == Some(number(sector, 0, 4) as u64)
            &&& c.findings.contains(Finding::RepetitionsAgree { copies: g.bytes_per_sector / 4 })
                <==> boot::differing_total(sector, g.bytes_per_sector as nat / 4) == 0
        }),
{
    broadcast use vstd::seq_lib::lemma_seq_concat_contains_all_elements;
    broadcast use vstd::seq_lib::lemma_seq_empty_contains_nothing;
    broadcast use lemma_when;

    let sector = dev.read(at, g.bytes_per_sector).data;
    lemma_numbers_are_little_endian(sector, 0);
    lemma_total_bound(sector, sector.len() / 4);
}

proof fn lemma_total_bound(sector: Seq<u8>, n: nat)
    ensures
        boot::differing_total(sector, n) <= n,
    decreases n,
{
    if n > 1 {
        lemma_total_bound(sector, (n - 1) as nat);
    }
}

/// Rows of the FAT: cluster `i + 2` has the number that stands `i` words behind the first
/// two, free, ending, bad, leading on, or leading outside the heap.
pub proof fn lemma_fat_rows_are_judged(bytes: Seq<u8>, start: u64, count: u64, i: int)
    requires
        0 <= i,
        4 * i + 4 <= bytes.len(),
        start + bytes.len() <= u64::MAX,
        count <= 0xFFFF_FFFF,
    ensures
        ({
            let row = fat_table::row_of(bytes, start, count, i);
            let v = number(bytes, 4 * i, 4);
            &&& row.cluster == i + 2
            &&& row.value == v
            &&& row.at == start + 4 * i
            &&& row.finding == Some(Finding::BadCluster) <==> v == 0xFFFF_FFF7
            &&& row.finding is None <==> v == 0 || v == 0xFFFF_FFFF || (v != 0xFFFF_FFF7 && 2 <= v <= count
                + 1)
        }),
{
    lemma_numbers_are_little_endian(bytes, 4 * i);
}

// -------------------------------------------------------------------------- entries

/// The type of a record: in use with the top bit set, and what it was once that bit is set
/// again.
pub proof fn lemma_types_by_their_bits(t: u8)
    ensures
        types::in_use(t) <==> t >= 128,
        types::in_use(types::restored(t)),
        types::restored(t) % 128 == t % 128,
        types::restored(t) == t || types::restored(t) == t + 128,
        types::plausible(t) <==> t % 32 != 0 || t == 0xA0 || t == 0x20 || t == 0xC0 || t == 0x40,
{
}

/// A set's checksum is judged as stored against the sum of its bytes; of a deleted set,
/// against the sum that its bytes had when the records were in use.
pub proof fn lemma_set_checksum_is_judged(set: Seq<u8>, live: bool)
    requires
        set.len() >= 32,
    ensures
        ({
            let own = entry::judged(
                entry::stored_sum(set),
                entry::set_sum(set),
                if live { None } else { Some(entry::set_sum(entry::with_in_use(set))) },
                live,
            );
            let stored = number(set, 2, 2);
            &&& own.stored == Some(stored as u64)
            &&& live ==> (own.matches <==> stored == entry::set_sum(set))
            &&& !live ==> (own.matches <==> stored == entry::set_sum(entry::with_in_use(set)))
            &&& own.finding is None <==> own.matches
            &&& own.finding is Some ==> (own.finding->0 is SetChecksumMismatch <==> live)
        }),
        entry::with_in_use(set).len() == set.len(),
        forall|i: int|
            0 <= i < set.len() ==> {
                &&& i % 32 != 0 ==> #[trigger] entry::with_in_use(set)[i] == set[i]
                &&& i % 32 == 0 ==> entry::with_in_use(set)[i] % 128 == set[i] % 128 && entry::with_in_use(
                    set,
                )[i] >= 128
            },
{
    lemma_numbers_are_little_endian(set, 2);
}

/// A name's hash is the sum of its code units, low byte first, with small letters made
/// capital.
pub proof fn lemma_hash_is_of_the_capitals(units: Seq<u16>, capitals: Seq<u8>)
    requires
        forall|i: int| 0 <= i < units.len() ==> #[trigger] units[i] <= 0x7F,
        capitals.len() == 2 * units.len(),
        forall|i: int|
            #![trigger units[i]]
            0 <= i < units.len() ==> capitals[2 * i + 1] == 0 && capitals[2 * i] == if 'a' as u16
                <= units[i] <= 'z' as u16 {
                units[i] - 32
            } else {
                units[i] as int
            },
    ensures
        entry::ascii_hash(units) == Some(
            checksum::ChecksumAlgo::ExfatEntrySet.value(capitals, Seq::empty()) as u16,
        ),
{
    assert forall|j: int| 0 <= j < capitals.len() implies capitals[j] == entry::upper_bytes(
        units,
    )[j] by {
        let i = j / 2;
        assert(0 <= i < units.len());
        assert(units[i] <= 0x7F);
        if j % 2 == 0 {
            assert(j == 2 * i);
        } else {
            assert(j == 2 * i + 1);
        }
    }
    assert(capitals =~= entry::upper_bytes(units));
}

/// A name that is not all ASCII has no hash here.
pub proof fn lemma_hash_is_for_ascii(units: Seq<u16>)
    ensures
        entry::ascii_hash(units) is None <==> exists|i: int|
            0 <= i < units.len() && #[trigger] units[i] > 0x7F,
{
}

/// A record of a set is what its type byte says, whether in use or deleted.
pub open spec fn kind_at(set: Seq<u8>, i: int) -> int {
    (set[32 * i] % 128) as int
}

/// What a set of records says of its file: the first stream extension gives where the
/// contents are and how long, and the file record whether it is a directory. A set has as
/// many records as it declares, up to what there is.
pub proof fn lemma_what_a_set_says(set: Seq<u8>, available: u64, i: int)
    requires
        set.len() == 32 * entry_set::set_total(set[1] as u64, available),
        available <= 0xFFFF_FFFF,
        set.len() >= 32,
        1 <= i < set.len() / 32,
        kind_at(set, i) == 0x40,
        forall|j: int| 1 <= j < i ==> #[trigger] kind_at(set, j) != 0x40,
    ensures
        ({
            let f = entry_set::facts_of(set, available);
            let s = 32 * i;
            &&& f.declared == set[1]
            &&& f.total == if set[1] <= available { set[1] + 1 } else { available + 1 }
            &&& f.live <==> set[0] >= 128
            &&& f.is_dir <==> (set[4] / 16) % 2 == 1
            &&& f.has_stream
            &&& f.name_length == set[s + 3]
            &&& f.stored_hash == Some(number(set, s + 4, 2) as u16)
            &&& f.first_cluster == number(set, s + 20, 4)
            &&& f.data_length == number(set, s + 24, 8)
            &&& f.valid_length == number(set, s + 8, 8)
            &&& f.alloc_possible <==> set[s + 1] % 2 == 1
            &&& f.no_fat_chain <==> (set[s + 1] / 2) % 2 == 1
            &&& entry_set::role_of(set, i) == Role::Stream
        }),
{
    let f = entry_set::facts_of(set, available);
    lemma_first_stream(set, f.total as nat, i);
    let s = set.subrange(32 * i, 32 * i + 32);
    lemma_numbers_are_little_endian(s, 4);
    lemma_numbers_are_little_endian(s, 20);
    lemma_numbers_are_little_endian(s, 24);
    lemma_numbers_are_little_endian(s, 8);
    lemma_number_shift(set, s, 32 * i, 4, 2);
    lemma_number_shift(set, s, 32 * i, 20, 4);
    lemma_number_shift(set, s, 32 * i, 24, 8);
    lemma_number_shift(set, s, 32 * i, 8, 8);
    assert((common::le16(set, 4) / 16) % 2 == (set[4] / 16) % 2);
}

proof fn lemma_number_shift(b: Seq<u8>, s: Seq<u8>, at: int, off: int, n: nat)
    requires
        0 <= at,
        at + 32 <= b.len(),
        s == b.subrange(at, at + 32),
        0 <= off,
        off + n <= 32,
    ensures
        number(s, off, n) == number(b, at + off, n),
    decreases n,
{
    if n > 0 {
        lemma_number_shift(b, s, at, off + 1, (n - 1) as nat);
    }
}

proof fn lemma_first_stream(set: Seq<u8>, n: nat, i: int)
    requires
        1 <= i,
        kind_at(set, i) == 0x40,
        forall|j: int| 1 <= j < i ==> #[trigger] kind_at(set, j) != 0x40,
    ensures
        entry_set::stream_among(set, n) == if i < n { Some(i) } else { None },
    decreases n,
{
    if n > 1 {
        lemma_first_stream(set, (n - 1) as nat, i);
        if n - 1 < i {
            assert(kind_at(set, n - 1) != 0x40);
        }
    }
}

/// A name is spelled by the name records of its set, fifteen units each and in their order,
/// and cut at the length that the stream extension gives.
pub proof fn lemma_name_is_spelled_record_by_record(set: Seq<u8>, n: nat)
    requires
        n >= 1,
    ensures
        entry_set::name_units(set, 1) == Seq::<u16>::empty(),
        ({
            let before = entry_set::name_units(set, n);
            let all = entry_set::name_units(set, n + 1);
            let named = set[32 * n as int] % 128 == 0x41;
            &&& !named ==> all == before
            &&& named ==> all.len() == before.len() + 15 && all.take(before.len() as int) == before
                && forall|k: int|
                #![trigger all[before.len() + k]]
                0 <= k < 15 ==> all[before.len() + k] == set[32 * n + 2 + 2 * k] + 256 * set[32 * n + 3
                    + 2 * k]
        }),
{
    let before = entry_set::name_units(set, n);
    let all = entry_set::name_units(set, n + 1);
    let own = text::units_in(set, 32 * n as int + 2, 15);
    if set[32 * n as int] % 128 == 0x41 {
        assert(all == before + own);
        assert(all.take(before.len() as int) =~= before);
        assert forall|k: int| 0 <= k < 15 implies #[trigger] all[before.len() + k] == set[32 * n + 2 + 2
            * k] + 256 * set[32 * n + 3 + 2 * k] by {
            assert(all[before.len() + k] == own[k]);
        }
    } else {
        assert(all =~= before);
    }
}

/// What a set is told, each exactly when it is so.
pub proof fn lemma_set_is_judged(f: SetFacts)
    ensures
        ({
            let told = entry_set::structure_findings(f) + entry_set::length_findings(f);
            &&& told.contains(Finding::MixedUse) <==> f.mixed
            &&& told.contains(
                Finding::SetTruncated { declared: f.declared, available: f.available },
            ) <==> f.declared > f.available
            &&& told.contains(Finding::TooFewSecondaries { declared: f.declared }) <==> f.declared < 2
            &&& told.contains(Finding::NoStream) <==> !f.has_stream
            &&& told.contains(
                Finding::ValidPastLength { valid: f.valid_length, length: f.data_length },
            ) <==> f.valid_length > f.data_length
            &&& f.valid_length < f.data_length <==> told.contains(
                Finding::UnwrittenTail { bytes: (f.data_length - f.valid_length) as u64 },
            )
            &&& told.contains(Finding::AllocationImpossible) <==> !f.alloc_possible && (f.first_cluster
                != 0 || f.data_length != 0)
            &&& f.has_stream && !(15 * (f.name_entries - 1) < f.name_length <= 15 * f.name_entries)
                && f.name_length > 0 && f.name_length <= 255 ==> exists|needed: u64|
                #[trigger] told.contains(
                    Finding::NameEntries {
                        name_length: f.name_length,
                        needed,
                        entries: f.name_entries,
                    },
                )
        }),
{
    broadcast use vstd::seq_lib::lemma_seq_concat_contains_all_elements;
    broadcast use vstd::seq_lib::lemma_seq_empty_contains_nothing;
    broadcast use lemma_when;

    let told = entry_set::structure_findings(f) + entry_set::length_findings(f);
    let needed = common::ceil_div(f.name_length as int, 15) as u64;
    if f.has_stream && f.name_entries != needed {
        assert(told.contains(
            Finding::NameEntries { name_length: f.name_length, needed, entries: f.name_entries },
        ));
    }
}

// ----------------------------------------------------------------------- directories

/// Some record before `k` ends the directory: the scan goes on behind it, and what it finds
/// there is residue.
#[verifier::spinoff_prover]
#[verifier::rlimit(60)]
pub proof fn lemma_scan_goes_on(s: Scan, k: int, past_end: bool)
    requires
        0 <= k < s.slots,
        s.slots <= 0xFFFF_FFFF,
        s.flat.len() >= 32 * s.slots,
    ensures
        ({
            let b = s.flat.subrange(32 * k, 32 * k + 32);
            let items = s.items(k, past_end);
            let nothing = forall|i: int| 0 <= i < 32 ==> #[trigger] b[i] == 0;
            let file = b[0] != 0 && b[0] % 128 == 5;
            let width: int = if !file {
                1
            } else if b[1] <= s.slots - k - 1 {
                b[1] + 1
            } else {
                s.slots - k
            };
            &&& past_end && nothing ==> items == s.items(k + 1, past_end)
            &&& !(past_end && nothing) ==> {
                &&& items.len() > 0
                &&& items[0].slot == k
                &&& items[0].type_byte == b[0]
                &&& items[0].residue == past_end
                &&& items.skip(1) == s.items(k + width, past_end || b[0] == 0)
                &&& items[0].entry is File <==> file
                &&& items[0].entry is End <==> b[0] == 0 && !past_end
                &&& items[0].entry is ZeroedType <==> b[0] == 0 && past_end
                &&& items[0].entry is Single <==> b[0] != 0 && !file
            }
        }),
{
    let b = s.flat.subrange(32 * k, 32 * k + 32);
    assert(b == directory::slot_bytes(s.flat, k));
    assert(b[0] == s.flat[32 * k] && b[1] == s.flat[32 * k + 1]);
    let t = b[0];
    let items = s.items(k, past_end);
    let nothing = forall|i: int| 0 <= i < 32 ==> #[trigger] b[i] == 0;
    assert(types::restored(t) == types::FILE <==> t % 128 == 5);
    assert(s.vacant(k, past_end) <==> past_end && nothing);
    if !s.vacant(k, past_end) {
        let row = s.item(k, past_end);
        let width = s.width(k);
        let rest = s.items(k + width, past_end || t == 0);
        assert(items == seq![row] + rest);
        assert((seq![row] + rest).skip(1) =~= rest);
        assert(items[0] == row);
    }
}

/// What a single record says: where its contents are and how long they are, and the
/// checksum of a table.
pub proof fn lemma_what_a_single_record_says(b: Seq<u8>, at: u64, base: u64)
    requires
        b.len() == 32,
    ensures
        ({
            let s = entry::single_of(b, at, base);
            &&& s.at == at
            &&& s.type_byte == b[0]
            &&& s.first_cluster == number(b, 20, 4)
            &&& s.data_length == number(b, 24, 8)
            &&& s.table_checksum == number(b, 4, 4)
            &&& s.findings.contains(
                Finding::EntryDeleted { type_byte: b[0], live: types::restored(b[0]) },
            ) <==> b[0] < 128
            &&& s.findings.contains(Finding::NothingSurvives) <==> b[0] < 128 && forall|i: int|
                1 <= i < 32 ==> #[trigger] b[i] == 0
            &&& s.findings.contains(Finding::LoneSecondary) <==> (b[0] / 64) % 2 == 1
        }),
{
    broadcast use vstd::seq_lib::lemma_seq_concat_contains_all_elements;
    broadcast use lemma_when;

    lemma_numbers_are_little_endian(b, 4);
    lemma_numbers_are_little_endian(b, 20);
    lemma_numbers_are_little_endian(b, 24);
}

// --------------------------------------------------------------------------- labels

/// A volume label is as many characters as it says, of the eleven code units it has room for,
/// read up to the first that is zero.
pub proof fn lemma_volume_label_text(b: Seq<u8>, units: Seq<u16>)
    requires
        b.len() == 32,
        units.len() <= 11,
        forall|i: int|
            0 <= i < units.len() ==> (#[trigger] units[i] != 0 && !(0xD800 <= units[i] <= 0xDFFF) && b[2
                + 2 * i] == units[i] % 256 && b[3 + 2 * i] == units[i] / 256),
        units.len() < 11 ==> b[2 + 2 * units.len() as int] == 0 && b[3 + 2 * units.len() as int] == 0,
    ensures
        b[1] >= units.len() ==> entry::label_text(b) == Seq::new(units.len(), |i: int| units[i] as char),
        b[1] < units.len() ==> entry::label_text(b) == Seq::new(b[1] as nat, |i: int| units[i] as char),
{
    let all = text::units_in(b, 2, 11);
    assert forall|i: int| 0 <= i < units.len() implies #[trigger] all[i] == units[i] by {}
    lemma_nul_at(all, units.len());
    assert(all.take(units.len() as int) =~= units);
    text_laws::lemma_plain_units_are_characters(units);
    let whole = text::utf16_text(units);
    assert(whole =~= Seq::new(units.len(), |i: int| units[i] as char));
    if b[1] < units.len() {
        assert(whole.take(b[1] as int) =~= Seq::new(b[1] as nat, |i: int| units[i] as char));
    }
}

proof fn lemma_nul_at(s: Seq<u16>, n: nat)
    requires
        n <= s.len(),
        forall|i: int| 0 <= i < n ==> s[i] != 0,
        n < s.len() ==> s[n as int] == 0,
    ensures
        text::nul_index(s) == n,
    decreases s.len(),
{
    if n > 0 {
        assert forall|i: int| 0 <= i < n - 1 implies s.skip(1)[i] != 0 by {
            assert(s.skip(1)[i] == s[i + 1]);
        }
        lemma_nul_at(s.skip(1), (n - 1) as nat);
    }
}

/// The records of a set stand in the slots from the first on, each with the part it plays:
/// the name records are numbered in their order.
pub proof fn lemma_parts_of_a_set(set: Seq<u8>, runs: Seq<(u64, u64)>, k: int, n: nat, i: int)
    requires
        0 <= i < n,
        n <= 0xFFFF_FFFF,
    ensures
        ({
            let r = entry_set::records_of(set, runs, k, n);
            let kind = set[32 * i] % 128;
            &&& r.len() == n
            &&& r[i].type_byte == set[32 * i]
            &&& r[i].at == entry_set::slot_at(runs, k + i)
            &&& r[i].role is File <==> i == 0
            &&& r[i].role is Stream <==> i > 0 && kind == 0x40
            &&& r[i].role is Name <==> i > 0 && kind == 0x41
            &&& r[i].role is Other <==> i > 0 && kind != 0x40 && kind != 0x41
            &&& r[i].role matches Role::Name { index } ==> index == entry_set::name_count(set, i as nat)
        }),
        entry_set::name_count(set, 1) == 0,
        n >= 1 ==> entry_set::name_count(set, n + 1) == entry_set::name_count(set, n) + if set[32
            * n as int] % 128 == 0x41 {
            1int
        } else {
            0
        },
{
    lemma_name_count_bound(set, i as nat);
}

proof fn lemma_name_count_bound(set: Seq<u8>, n: nat)
    ensures
        entry_set::name_count(set, n) <= n,
    decreases n,
{
    if n > 1 {
        lemma_name_count_bound(set, (n - 1) as nat);
    }
}

/// A set's checksum notices every single byte that changes, but for the two it is stored in.
pub proof fn lemma_set_sum_leaves_out_its_own_bytes(a: Seq<u8>, b: Seq<u8>, i: int)
    requires
        a.len() == b.len(),
        0 <= i < a.len(),
        a[i] != b[i],
        forall|j: int| 0 <= j < a.len() && j != i ==> #[trigger] a[j] == b[j],
    ensures
        entry::set_sum(a) == entry::set_sum(b) <==> i == 2 || i == 3,
{
    let hole = entry::set_checksum_hole();
    checksum::lemma_rotate_add_notices_a_byte(a, b, hole, 0x8000, i);
    checksum::lemma_rotate_add_bound(a, hole, 0x8000);
    checksum::lemma_rotate_add_bound(b, hole, 0x8000);
    if i == 2 || i == 3 {
        assert(hole[0].0 <= i < hole[0].0 + hole[0].1);
    }
}

} // verus!
