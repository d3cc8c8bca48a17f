//! Small FAT32 volumes made up on the spot: what a formatter would write, with room for
//! the damage that no formatter produces.

use crate::bytes;
use crate::bytes::{push_bytes, push_le, push_zeros, write_at, write_byte, write_le};
use crate::common;
use crate::fat::chain;
use crate::fat::chain::ChainEnd;
use crate::fat::entry;
use crate::fat::geometry;
use crate::fat::geometry::Bpb;
use crate::fat::kind::FatKind;
use crate::fat::volume;
use crate::source::{BlockSource, MemSource};
use vstd::prelude::*;

verus! {

// ------------------------------------------------------------------- the sectors

/// The boot sector up to the total number of sectors: 512-byte sectors, 32 of them
/// reserved, two FATs, a fixed disk.
pub open spec fn boot_head(sectors_per_cluster: u8) -> Seq<u8> {
    seq![
        0xEBu8, 0x58, 0x90,
        0x62, 0x6C, 0x6B, 0x74, 0x61, 0x6D, 0x70, 0x72,
        0x00, 0x02, sectors_per_cluster, 0x20, 0x00, 0x02,
        0x00, 0x00, 0x00, 0x00, 0xF8,
        0x00, 0x00, 0x00, 0x00, 0x00, 0x00, 0x00, 0x00, 0x00, 0x00,
    ]
}

/// The extended part behind the size of a FAT: the root in cluster 2, FSInfo in sector
/// 1, the backup in sector 6, a serial number, a label and the type string.
pub open spec fn boot_ext() -> Seq<u8> {
    seq![
        0x00u8, 0x00, 0x00, 0x00, 0x02, 0x00, 0x00, 0x00, 0x01, 0x00, 0x06, 0x00,
        0x00, 0x00, 0x00, 0x00, 0x00, 0x00, 0x00, 0x00, 0x00, 0x00, 0x00, 0x00,
        0x80, 0x00, 0x29, 0xCD, 0xAB, 0x34, 0x12,
        0x53, 0x59, 0x4E, 0x54, 0x48, 0x20, 0x20, 0x20, 0x20, 0x20, 0x20,
        0x46, 0x41, 0x54, 0x33, 0x32, 0x20, 0x20, 0x20,
    ]
}

/// The boot sector.
pub open spec fn boot_image(total_sectors: u32, sectors_per_cluster: u8, fat_size: u32) -> Seq<u8> {
    boot_head(sectors_per_cluster) + bytes::le_bytes(total_sectors as int, 4) + bytes::le_bytes(
        fat_size as int,
        4,
    ) + boot_ext() + bytes::zeros(420) + seq![0x55u8, 0xAA]
}

/// The first three entries of a FAT: the media byte, and two ends of chains.
pub open spec fn fat_head() -> Seq<u8> {
    seq![
        0xF8u8, 0xFF, 0xFF, 0x0F,
        0xFF, 0xFF, 0xFF, 0x0F,
        0xFF, 0xFF, 0xFF, 0x0F,
    ]
}

/// An image with the head of a FAT at `at`, where it fits.
pub open spec fn with_fat(img: Seq<u8>, at: int) -> Seq<u8> {
    if at + 12 <= img.len() {
        bytes::put(img, at, fat_head())
    } else {
        img
    }
}

/// An image with an FSInfo sector that gives no hints, where it fits.
pub open spec fn with_fsinfo(img: Seq<u8>) -> Seq<u8> {
    if 1024 <= img.len() {
        bytes::put(
            bytes::put(
                bytes::put(img, 512, seq![0x52u8, 0x52, 0x61, 0x41]),
                0x3E4,
                seq![
                    0x72u8, 0x72, 0x41, 0x61,
                    0xFF, 0xFF, 0xFF, 0xFF, 0xFF, 0xFF, 0xFF, 0xFF,
                ],
            ),
            0x3FC,
            seq![0x00u8, 0x00, 0x55, 0xAA],
        )
    } else {
        img
    }
}

/// The volume's sectors before the FATs and FSInfo are filled in.
pub open spec fn blank_volume(total_sectors: u32, sectors_per_cluster: u8, fat_size: u32) -> Seq<
    u8,
> {
    if total_sectors == 0 {
        Seq::empty()
    } else {
        boot_image(total_sectors, sectors_per_cluster, fat_size) + bytes::zeros(
            (512 * total_sectors - 512) as nat,
        )
    }
}

/// The volume.
pub open spec fn fat32_image(total_sectors: u32, sectors_per_cluster: u8, fat_size: u32) -> Seq<
    u8,
> {
    with_fsinfo(
        with_fat(
            with_fat(blank_volume(total_sectors, sectors_per_cluster, fat_size), 16384),
            16384 + 512 * fat_size,
        ),
    )
}

fn put_fat(img: &mut Vec<u8>, at: usize)
    requires
        at + 12 <= usize::MAX,
    ensures
        final(img)@ == with_fat(old(img)@, at as int),
{
    if at + 12 <= img.len() {
        let head: [u8; 12] = [
            0xF8, 0xFF, 0xFF, 0x0F,
            0xFF, 0xFF, 0xFF, 0x0F,
            0xFF, 0xFF, 0xFF, 0x0F,
        ];
        assert(head@ =~= fat_head());
        write_at(img, at, &head);
    }
}

fn put_fsinfo(img: &mut Vec<u8>)
    ensures
        final(img)@ == with_fsinfo(old(img)@),
{
    if 1024 <= img.len() {
        let lead: [u8; 4] = [0x52, 0x52, 0x61, 0x41];
        let hints: [u8; 12] = [
            0x72, 0x72, 0x41, 0x61,
            0xFF, 0xFF, 0xFF, 0xFF, 0xFF, 0xFF, 0xFF, 0xFF,
        ];
        let trail: [u8; 4] = [0x00, 0x00, 0x55, 0xAA];
        assert(lead@ =~= seq![0x52u8, 0x52, 0x61, 0x41]);
        assert(hints@ =~= seq![
            0x72u8, 0x72, 0x41, 0x61,
            0xFF, 0xFF, 0xFF, 0xFF, 0xFF, 0xFF, 0xFF, 0xFF,
        ]);
        assert(trail@ =~= seq![0x00u8, 0x00, 0x55, 0xAA]);
        write_at(img, 512, &lead);
        write_at(img, 0x3E4, &hints);
        write_at(img, 0x3FC, &trail);
    }
}

fn blank(total_sectors: u32, sectors_per_cluster: u8, fat_size: u32) -> (img: Vec<u8>)
    requires
        512 * total_sectors <= usize::MAX,
    ensures
        img@ == blank_volume(total_sectors, sectors_per_cluster, fat_size),
{
    let mut img: Vec<u8> = Vec::new();
    if total_sectors == 0 {
        return img;
    }
    let head: [u8; 32] = [
        0xEB, 0x58, 0x90,
        0x62, 0x6C, 0x6B, 0x74, 0x61, 0x6D, 0x70, 0x72,
        0x00, 0x02, sectors_per_cluster, 0x20, 0x00, 0x02,
        0x00, 0x00, 0x00, 0x00, 0xF8,
        0x00, 0x00, 0x00, 0x00, 0x00, 0x00, 0x00, 0x00, 0x00, 0x00,
    ];
    let ext: [u8; 50] = [
        0x00, 0x00, 0x00, 0x00, 0x02, 0x00, 0x00, 0x00, 0x01, 0x00, 0x06, 0x00,
        0x00, 0x00, 0x00, 0x00, 0x00, 0x00, 0x00, 0x00, 0x00, 0x00, 0x00, 0x00,
        0x80, 0x00, 0x29, 0xCD, 0xAB, 0x34, 0x12,
        0x53, 0x59, 0x4E, 0x54, 0x48, 0x20, 0x20, 0x20, 0x20, 0x20, 0x20,
        0x46, 0x41, 0x54, 0x33, 0x32, 0x20, 0x20, 0x20,
    ];
    let end: [u8; 2] = [0x55, 0xAA];
    assert(head@ =~= boot_head(sectors_per_cluster));
    assert(ext@ =~= boot_ext());
    assert(end@ =~= seq![0x55u8, 0xAA]);
    push_bytes(&mut img, &head);
    assert(img@ =~= boot_head(sectors_per_cluster));
    push_le(&mut img, total_sectors as u64, 4);
    push_le(&mut img, fat_size as u64, 4);
    push_bytes(&mut img, &ext);
    push_zeros(&mut img, 420);
    push_bytes(&mut img, &end);
    assert(img@ == boot_image(total_sectors, sectors_per_cluster, fat_size));
    push_zeros(&mut img, 512 * (total_sectors as usize) - 512);
    img
}

/// Build a FAT32 volume. Deliberately minimal, and nothing is said about the numbers
/// being sensible: what happens when one of them is wrong is what it is for.
pub fn synth_fat32(total_sectors: u32, sectors_per_cluster: u8, fat_size: u32) -> (img: Vec<u8>)
    requires
        512 * total_sectors <= usize::MAX,
        16384 + 512 * fat_size + 12 <= usize::MAX,
    ensures
        img@ == fat32_image(total_sectors, sectors_per_cluster, fat_size),
{
    let mut img: Vec<u8> = blank(total_sectors, sectors_per_cluster, fat_size);
    put_fat(&mut img, 16384);
    put_fat(&mut img, 16384 + 512 * (fat_size as usize));
    put_fsinfo(&mut img);
    img
}

// --------------------------------------------------------------------- the records

/// An image with a directory record at `off`, where it fits.
pub open spec fn with_entry(
    img: Seq<u8>,
    off: int,
    name: Seq<u8>,
    attr: u8,
    cluster: u32,
    size: u32,
) -> Seq<u8> {
    if off + 32 > img.len() {
        img
    } else {
        bytes::put(
            bytes::put(
                bytes::put(
                    bytes::put(bytes::put(img, off, name), off + 0x0B, seq![attr]),
                    off + 0x14,
                    bytes::le_bytes(cluster as int / 0x1_0000, 2),
                ),
                off + 0x1A,
                bytes::le_bytes(cluster as int % 0x1_0000, 2),
            ),
            off + 0x1C,
            bytes::le_bytes(size as int, 4),
        )
    }
}

/// Write a directory record into an image at `off`. One that does not fit is left out.
pub fn synth_entry(
    img: &mut Vec<u8>,
    off: usize,
    name: &[u8; 11],
    attr: u8,
    cluster: u32,
    size: u32,
)
    requires
        off + 32 <= usize::MAX,
    ensures
        final(img)@ == with_entry(old(img)@, off as int, name@, attr, cluster, size),
{
    if off + 32 > img.len() {
        return;
    }
    write_at(img, off, name);
    write_byte(img, off + 0x0B, attr);
    write_le(img, off + 0x14, (cluster / 0x1_0000) as u64, 2);
    write_le(img, off + 0x1A, (cluster % 0x1_0000) as u64, 2);
    write_le(img, off + 0x1C, size as u64, 4);
}

// ---------------------------------------------------------------------------- laws

/// A record that was written reads back: its name, attributes, cluster and size. The
/// bytes before and after it are untouched.
pub proof fn lemma_entry_reads_back(
    img: Seq<u8>,
    off: int,
    name: Seq<u8>,
    attr: u8,
    cluster: u32,
    size: u32,
)
    requires
        0 <= off,
        off + 32 <= img.len(),
        name.len() == 11,
    ensures
        ({
            let after = with_entry(img, off, name, attr, cluster, size);
            let b = after.subrange(off, off + 32);
            &&& after.len() == img.len()
            &&& b.take(11) == name
            &&& b[0x0B] == attr
            &&& entry::cluster_of(b) == cluster
            &&& common::le32(b, 0x1C) == size
            &&& forall|i: int|
                0 <= i < img.len() && !(off <= i < off + 32) ==> #[trigger] after[i] == img[i]
        }),
{
    let after = with_entry(img, off, name, attr, cluster, size);
    let b = after.subrange(off, off + 32);
    let hi = cluster as int / 0x1_0000;
    let lo = cluster as int % 0x1_0000;
    bytes::lemma_le_bytes_len(hi, 2);
    bytes::lemma_le_bytes_len(lo, 2);
    bytes::lemma_le_bytes_len(size as int, 4);
    bytes::lemma_le16_bytes(hi);
    bytes::lemma_le16_bytes(lo);
    bytes::lemma_le32_bytes(size as int);
    assert(b.take(11) =~= name);
    assert(b[0x14] == bytes::le_bytes(hi, 2)[0] && b[0x15] == bytes::le_bytes(hi, 2)[1]);
    assert(b[0x1A] == bytes::le_bytes(lo, 2)[0] && b[0x1B] == bytes::le_bytes(lo, 2)[1]);
    assert(common::le16(b, 0x14) == hi);
    assert(common::le16(b, 0x1A) == lo);
}

/// The numbers that a made boot sector states.
pub open spec fn given_bpb(total_sectors: u32, sectors_per_cluster: u8, fat_size: u32) -> Bpb {
    Bpb {
        bytes_per_sector: 512,
        sectors_per_cluster: sectors_per_cluster as u64,
        reserved_sectors: 32,
        num_fats: 2,
        root_entries: 0,
        total_16: 0,
        fat_size_16: 0,
        total_32: total_sectors as u64,
        fat_size_32: fat_size as u64,
        root_cluster: 2,
    }
}

proof fn lemma_boot_sector(total_sectors: u32, sectors_per_cluster: u8, fat_size: u32)
    ensures
        ({
            let b = boot_image(total_sectors, sectors_per_cluster, fat_size);
            &&& b.len() == 512
            &&& b.subrange(0, 32) == boot_head(sectors_per_cluster)
            &&& common::le32(b, 0x20) == total_sectors
            &&& common::le32(b, 0x24) == fat_size
            &&& b.subrange(0x28, 0x5A) == boot_ext()
            &&& b[0x1FE] == 0x55
            &&& b[0x1FF] == 0xAA
        }),
{
    let b = boot_image(total_sectors, sectors_per_cluster, fat_size);
    bytes::lemma_le_bytes_len(total_sectors as int, 4);
    bytes::lemma_le_bytes_len(fat_size as int, 4);
    bytes::lemma_le32_bytes(total_sectors as int);
    bytes::lemma_le32_bytes(fat_size as int);
    assert(b.subrange(0, 32) =~= boot_head(sectors_per_cluster));
    assert(b.subrange(0x28, 0x5A) =~= boot_ext());
    assert(b.subrange(0x20, 0x24) =~= bytes::le_bytes(total_sectors as int, 4));
    assert(b.subrange(0x24, 0x28) =~= bytes::le_bytes(fat_size as int, 4));
    let t = b.subrange(0x20, 0x24);
    let f = b.subrange(0x24, 0x28);
    assert(t[0] == b[0x20] && t[1] == b[0x21] && t[2] == b[0x22] && t[3] == b[0x23]);
    assert(f[0] == b[0x24] && f[1] == b[0x25] && f[2] == b[0x26] && f[3] == b[0x27]);
}

proof fn lemma_boot_numbers(b: Seq<u8>, total_sectors: u32, sectors_per_cluster: u8, fat_size: u32)
    requires
        b == boot_image(total_sectors, sectors_per_cluster, fat_size),
    ensures
        b.len() == 512,
        geometry::bpb_of(b) == given_bpb(total_sectors, sectors_per_cluster, fat_size),
        b[0] == 0xEB && b[2] == 0x90,
        b[0x0B] == 0 && b[0x0C] == 2 && b[0x0D] == sectors_per_cluster,
        b[0x0E] == 0x20 && b[0x0F] == 0 && b[0x10] == 2,
        b[3] == 0x62,
        b[0x15] == 0xF8,
        b[0x42] == 0x29,
        b[0x52] == 0x46 && b[0x53] == 0x41 && b[0x54] == 0x54,
        b[0x1FE] == 0x55 && b[0x1FF] == 0xAA,
{
    lemma_boot_sector(total_sectors, sectors_per_cluster, fat_size);
    let head = boot_head(sectors_per_cluster);
    let ext = boot_ext();
    assert forall|i: int| 0 <= i < 32 implies #[trigger] b[i] == head[i] by {
        assert(b.subrange(0, 32)[i] == b[i]);
    }
    assert forall|i: int| 0x28 <= i < 0x5A implies #[trigger] b[i] == ext[i - 0x28] by {
        assert(b.subrange(0x28, 0x5A)[i - 0x28] == b[i]);
    }
    assert(b[0x2C] == ext[4] && b[0x2D] == ext[5] && b[0x2E] == ext[6] && b[0x2F] == ext[7]);
    assert(b[0x0B] == head[0x0B] && b[0x0C] == head[0x0C] && b[0x0D] == head[0x0D]);
    assert(b[0x0E] == head[0x0E] && b[0x0F] == head[0x0F] && b[0x10] == head[0x10]);
    assert(b[0x11] == head[0x11] && b[0x12] == head[0x12] && b[0x13] == head[0x13] && b[0x14]
        == head[0x14]);
    assert(b[0x16] == head[0x16] && b[0x17] == head[0x17]);
}

/// A made volume has the size that was asked for and states the numbers that were asked
/// for, whatever they are.
pub proof fn lemma_synth_reads_back(total_sectors: u32, sectors_per_cluster: u8, fat_size: u32)
    requires
        total_sectors > 0,
    ensures
        ({
            let img = fat32_image(total_sectors, sectors_per_cluster, fat_size);
            &&& img.len() == 512 * total_sectors
            &&& img.take(512) == boot_image(total_sectors, sectors_per_cluster, fat_size)
            &&& geometry::bpb_of(img.take(512)) == given_bpb(
                total_sectors,
                sectors_per_cluster,
                fat_size,
            )
        }),
{
    let img = fat32_image(total_sectors, sectors_per_cluster, fat_size);
    let boot = boot_image(total_sectors, sectors_per_cluster, fat_size);
    lemma_boot_numbers(boot, total_sectors, sectors_per_cluster, fat_size);
    assert(img.take(512) =~= boot);
}

/// A made volume that has the clusters of a FAT32 volume is recognised without
/// reservation, and its root directory is a chain of the one cluster 2.
pub proof fn lemma_synth_is_recognised(
    src: MemSource,
    total_sectors: u32,
    sectors_per_cluster: u8,
    fat_size: u32,
)
    requires
        src.contents() == fat32_image(total_sectors, sectors_per_cluster, fat_size),
        src.contents().len() <= u64::MAX,
        geometry::cluster_size_ok(sectors_per_cluster as u64),
        32 + 2 * fat_size + 65525 * sectors_per_cluster <= total_sectors,
        fat_size > 0,
    ensures
        volume::score_of(src.device(), 0) == 100,
        ({
            let g = volume::geometry_of(src.device(), src.contents().take(512), 0);
            &&& g.sane
            &&& g.kind == FatKind::Fat32
            &&& chain::chain_of(src.device(), g, g.root_cluster, 1) == (
                seq![2u64],
                ChainEnd::Eoc(0x0FFF_FFFF),
            )
        }),
{
    let dev = src.device();
    let img = src.contents();
    lemma_synth_reads_back(total_sectors, sectors_per_cluster, fat_size);
    let b = img.take(512);
    lemma_boot_numbers(b, total_sectors, sectors_per_cluster, fat_size);
    assert(dev.read(0, 512).data =~= b);
    assert(b.subrange(3, 11)[0] == 0x62);
    let raw = geometry::bpb_of(b);
    lemma_given_layout(raw, total_sectors, sectors_per_cluster, fat_size);
    let g = volume::geometry_of(dev, b, 0);
    lemma_root_entry(img, total_sectors, sectors_per_cluster, fat_size);
    assert(dev.read(16392, 4).data =~= img.subrange(16392, 16396));
    let e = img.subrange(16392, 16396);
    assert(g.entry_at(0, 2) == Some(16392u64));
    assert(e[0] == img[16392] && e[1] == img[16393] && e[2] == img[16394] && e[3] == img[16395]);
    assert(common::le32(e, 0) == 0x0FFF_FFFF);
    assert(chain::entry_of(dev, g, 0, 2) == Some(0x0FFF_FFFFu32));
    assert(chain::after(dev, g, 2) == Err::<u64, ChainEnd>(ChainEnd::Eoc(0x0FFF_FFFF)));
}

proof fn lemma_given_layout(raw: Bpb, total_sectors: u32, sectors_per_cluster: u8, fat_size: u32)
    requires
        raw == given_bpb(total_sectors, sectors_per_cluster, fat_size),
        geometry::cluster_size_ok(sectors_per_cluster as u64),
        32 + 2 * fat_size + 65525 * sectors_per_cluster <= total_sectors,
        fat_size > 0,
    ensures
        ({
            let g = geometry::geom_of(raw, 0);
            &&& g.sane
            &&& g.kind == FatKind::Fat32
            &&& g.cluster_count >= 65525
            &&& g.fat_start == 16384
            &&& g.root_cluster == 2
            &&& g.num_fats == 2
            &&& g.fat_size == fat_size
            &&& g.bytes_per_sector == 512
            &&& g.claimed() == 512 * total_sectors
            &&& g.fat_len() == Some((512 * fat_size) as u64)
            &&& g.fat_at(0) == Some(16384u64)
        }),
{
    let spc = sectors_per_cluster as int;
    assert(511int / raw.bytes_per_sector as int == 0) by (nonlinear_arith)
        requires
            raw.bytes_per_sector == 512,
    ;
    assert(raw.root_dir_sectors() == 0);
    assert(raw.num_fats * raw.fat_size() == 2 * fat_size) by (nonlinear_arith)
        requires
            raw.num_fats == 2,
            raw.fat_size() == fat_size,
    ;
    assert(raw.meta() == 32 + 2 * fat_size);
    let data = raw.total() - raw.meta();
    assert(data / spc >= 65525) by (nonlinear_arith)
        requires
            data >= 65525 * spc,
            spc > 0,
    ;
    assert(data / spc <= data) by (nonlinear_arith)
        requires
            data >= 0,
            spc > 0,
    ;
}

proof fn lemma_root_entry(
    img: Seq<u8>,
    total_sectors: u32,
    sectors_per_cluster: u8,
    fat_size: u32,
)
    requires
        img == fat32_image(total_sectors, sectors_per_cluster, fat_size),
        fat_size > 0,
        total_sectors > 34,
    ensures
        img.len() == 512 * total_sectors,
        img[16392] == 0xFF && img[16393] == 0xFF && img[16394] == 0xFF && img[16395] == 0x0F,
{
    lemma_synth_reads_back(total_sectors, sectors_per_cluster, fat_size);
    let one = with_fat(blank_volume(total_sectors, sectors_per_cluster, fat_size), 16384);
    assert(one[16392] == fat_head()[8] && one[16393] == fat_head()[9] && one[16394]
        == fat_head()[10] && one[16395] == fat_head()[11]);
}

} // verus!
