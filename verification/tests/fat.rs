use blktamper_formats::fat::boot::BootSector;
use blktamper_formats::fat::directory::{DirExpander, DirItem, Listing};
use blktamper_formats::fat::entry::FileEntry;
use blktamper_formats::fat::finding::Finding;
use blktamper_formats::fat::tables::cluster_at_byte;
use blktamper_formats::fat::name::{recover_first_char, short_name, short_name_checksum};
use blktamper_formats::fat::volume::FatVolume;
use blktamper_formats::fat::{
    fat_entry, follow_chain, synth_entry, synth_fat32, ChainEnd, FatKind, FatProbe, FatReader, Geom,
};
use blktamper_formats::source::{BlockSource, FailingSource, MemSource};
use blktamper_formats::status::Status;

/// 2048 sectors, 1 sector per cluster, 4-sector FATs: 2008 clusters, so FAT12 by the
/// cluster count even though `fs_type` says FAT32.
fn small() -> Vec<u8> {
    synth_fat32(2048, 1, 4)
}

/// Enough clusters to genuinely be FAT32.
fn big() -> Vec<u8> {
    synth_fat32(100_000, 1, 800)
}

fn says(findings: &[Finding], text: &str) -> bool {
    findings.iter().any(|f| f.message().contains(text))
}

fn boot_says(b: &BootSector, text: &str) -> bool {
    says(&b.findings, text)
}

fn list_root<S: BlockSource>(v: &FatVolume, src: &S) -> Listing {
    v.root.unwrap().dir.unwrap().expand(src)
}

fn labels(l: &Listing) -> Vec<String> {
    l.items.iter().map(|i| i.label()).collect()
}

fn file<'a>(l: &'a Listing, label: &str) -> &'a FileEntry {
    l.items
        .iter()
        .find_map(|i| match i {
            DirItem::File(f) if f.label.starts_with(label) => Some(f),
            _ => None,
        })
        .unwrap_or_else(|| panic!("{label} is not among {:?}", labels(l)))
}

/// Write a long-filename fragment at `off`.
fn synth_lfn(img: &mut [u8], off: usize, order: u8, checksum: u8, text: &str) {
    if off + 32 > img.len() {
        return;
    }
    img[off] = order;
    img[off + 0x0B] = 0x0F;
    img[off + 0x0D] = checksum;
    let units: Vec<u16> = text.encode_utf16().collect();
    let slots = [(0x01usize, 5usize), (0x0E, 6), (0x1C, 2)];
    let mut i = 0;
    for (start, count) in slots {
        for k in 0..count {
            let u = units.get(i).copied().unwrap_or(0x0000);
            img[off + start + k * 2..off + start + k * 2 + 2].copy_from_slice(&u.to_le_bytes());
            i += 1;
        }
    }
}

#[test]
fn the_cluster_count_decides_the_type_not_the_string() {
    let (g, _) = Geom::derive(&small(), 0);
    assert!(g.cluster_count < 4085);
    assert_eq!(g.kind, FatKind::Fat12, "2008 clusters is FAT12 whatever fs_type says");

    let (g, _) = Geom::derive(&big(), 0);
    assert!(g.cluster_count >= 65525);
    assert_eq!(g.kind, FatKind::Fat32);
}

#[test]
fn a_lying_fs_type_string_is_called_out() {
    let s = MemSource::new(small());
    let root = FatProbe.open(&s, 0).root();
    // A FAT12 volume gets the FAT12/16 EBPB, where the string sits 22 bytes earlier, so
    // the FAT32 "FAT32   " lands elsewhere and this reads as junk.
    assert!(
        boot_says(&root.boot, "documentation"),
        "must say the cluster count decides, not the string"
    );
}

#[test]
fn thresholds_are_the_spec_values_not_round_numbers() {
    assert_eq!(FatKind::from_cluster_count(4084), FatKind::Fat12);
    assert_eq!(FatKind::from_cluster_count(4085), FatKind::Fat16);
    assert_eq!(FatKind::from_cluster_count(65524), FatKind::Fat16);
    assert_eq!(FatKind::from_cluster_count(65525), FatKind::Fat32);
}

#[test]
fn a_zero_sector_size_cannot_divide_by_zero() {
    let mut img = big();
    img[0x0B] = 0;
    img[0x0C] = 0;
    let (g, d) = Geom::derive(&img, 0);
    assert!(!g.sane);
    assert!(d.iter().any(|f| f.field() == Some("bytes_per_sector")));
    // and everything else is still read
    let s = MemSource::new(img);
    let root = FatProbe.open(&s, 0).root();
    assert_eq!(root.boot.bpb.name, "FAT BPB");
    assert_eq!(root.finding, Some(Finding::ContentsUnlocated));
}

#[test]
fn a_volume_larger_than_its_device_is_flagged() {
    // 100_000 sectors of filesystem in an image that holds 1000.
    let mut img = big();
    img.truncate(1000 * 512);
    let s = MemSource::new(img);
    let root = FatProbe.open(&s, 0).root();
    let said: Vec<&Finding> = root
        .boot
        .findings
        .iter()
        .filter(|f| f.field() == Some("total_sectors_32"))
        .collect();
    assert!(
        said.iter().any(|f| f.message().contains("past the end of the device")),
        "{:?}",
        root.boot.findings
    );
}

#[test]
fn a_chain_that_loops_terminates() {
    let mut img = big();
    let (g, _) = Geom::derive(&img, 0);
    let fat = g.fat_start as usize;
    // 2 -> 3 -> 2
    img[fat + 8..fat + 12].copy_from_slice(&3u32.to_le_bytes());
    img[fat + 12..fat + 16].copy_from_slice(&2u32.to_le_bytes());
    let s = MemSource::new(img);
    let (clusters, end) = follow_chain(&s, &g, 2, 1024);
    assert_eq!(clusters, vec![2, 3]);
    assert_eq!(end, ChainEnd::Loop(2));
}

#[test]
fn a_chain_into_nowhere_stops() {
    let mut img = big();
    let (g, _) = Geom::derive(&img, 0);
    let fat = g.fat_start as usize;
    img[fat + 8..fat + 12].copy_from_slice(&0x00FF_FFFFu32.to_le_bytes());
    let s = MemSource::new(img);
    let (_, end) = follow_chain(&s, &g, 2, 1024);
    assert_eq!(end, ChainEnd::OutOfRange(0x00FF_FFFF));
}

#[test]
fn diverging_fats_are_reported_with_cluster_indices() {
    let mut img = big();
    let (g, _) = Geom::derive(&img, 0);
    let fat1 = g.fat_offset(1).unwrap() as usize;
    img[fat1 + 40] ^= 0xFF; // byte 40 -> cluster 10 on FAT32
    let s = MemSource::new(img);
    let root = FatProbe.open(&s, 0).root();
    let area = root.area.unwrap();
    assert_eq!(area.label(), "FAT area (2 copies x 800 sectors)");
    let kids = area.mirror.unwrap().expand(&s).unwrap();
    let d = &kids[0];
    assert!(says(&d.findings, "disagree"), "{:?}", d.findings);
    assert!(d.diff_label(g.kind, 0).contains("cluster ~10"), "{}", d.diff_label(g.kind, 0));
    assert_eq!(
        d.diff_finding(0),
        Finding::ByteDiffers { a: 0, byte_a: 0, b: 1, byte_b: 0xFF }
    );
}

#[test]
fn identical_fats_say_so_without_reading_them_twice() {
    let s = MemSource::new(big());
    let root = FatProbe.open(&s, 0).root();
    // Nothing is read until it is asked for.
    let kids = root.area.unwrap().mirror.unwrap().expand(&s).unwrap();
    assert!(says(&kids[0].findings, "agree"));
    assert_eq!(kids[0].matches, Some(true));
}

#[test]
fn a_deleted_entry_is_shown_and_marked() {
    let mut img = big();
    let (g, _) = Geom::derive(&img, 0);
    let root_at = g.data_start as usize;
    synth_entry(&mut img, root_at, b"LIVE    TXT", 0x20, 0, 10);
    synth_entry(&mut img, root_at + 32, b"\xE5ELETED TXT", 0x20, 3, 4096);
    let s = MemSource::new(img);
    let root = FatProbe.open(&s, 0).root();
    assert_eq!(root.root.unwrap().label(), "root directory (cluster 2)");
    let kids = list_root(&root, &s);
    let del = file(&kids, "?ELETED");
    assert_eq!(del.status(), Status::Info);
    assert!(says(&del.findings, "0xE5"));
}

#[test]
fn entries_after_the_end_marker_are_still_shown() {
    let mut img = big();
    let (g, _) = Geom::derive(&img, 0);
    let root_at = g.data_start as usize;
    synth_entry(&mut img, root_at, b"LIVE    TXT", 0x20, 0, 10);
    // record 1 left as 0x00 -> end of directory; record 2 is residue.
    synth_entry(&mut img, root_at + 64, b"\xE5LDNAME TXT", 0x20, 0, 99);
    let s = MemSource::new(img);
    let root = FatProbe.open(&s, 0).root();
    let kids = labels(&list_root(&root, &s));
    assert!(kids.iter().any(|k| k.starts_with("end of directory")));
    assert!(
        kids.iter().any(|k| k.starts_with("?LDNAME")),
        "residue past the terminator must still be listed"
    );
}

#[test]
fn short_names_render_the_dot_and_the_deletion_mark() {
    let mut b = [0x20u8; 32];
    b[..11].copy_from_slice(b"README  TXT");
    assert_eq!(short_name(&b), "README.TXT");
    b[..11].copy_from_slice(b"DCIM       ");
    assert_eq!(short_name(&b), "DCIM");
    b[..11].copy_from_slice(b"\xE5ECRET  TXT");
    assert_eq!(short_name(&b), "?ECRET.TXT");
    // 0x05 is a KANJI lead byte, not a deletion.
    b[..11].copy_from_slice(b"\x05ANJI   TXT");
    assert_eq!(short_name(&b), ".ANJI.TXT");
}

#[test]
fn the_short_name_checksum_matches_the_spec_example() {
    assert_eq!(short_name_checksum(b"FILENAMEEXT"), 0xF6);
}

#[test]
fn probe_refuses_exfat_and_ntfs_rather_than_guessing() {
    for oem in [b"EXFAT   ", b"NTFS    "] {
        let mut img = big();
        img[3..11].copy_from_slice(oem);
        assert_eq!(FatProbe.probe(&MemSource::new(img), 0), 0);
    }
}

#[test]
fn probe_scores_a_clean_volume_high_and_garbage_zero() {
    assert!(FatProbe.probe(&MemSource::new(big()), 0) >= 80);
    for seed in [0u8, 1, 0x55, 0xAA, 0xE5, 0xFF] {
        assert_eq!(FatProbe.probe(&MemSource::new(vec![seed; 4096]), 0), 0, "seed {seed:#x}");
    }
}

#[test]
fn garbage_never_panics_and_always_produces_a_tree() {
    for seed in 0u8..=255 {
        let s = MemSource::new(vec![seed; 8192]);
        let _ = FatProbe.probe(&s, 0);
        let root = FatProbe.open(&s, 0).root();
        assert!(!root.label().is_empty());
        if let Some(m) = root.area.as_ref().and_then(|a| a.mirror) {
            let _ = m.expand(&s);
        }
        if let Some(d) = root.root.and_then(|r| r.dir) {
            let _ = d.expand(&s);
        }
    }
}

#[test]
fn an_orphaned_lfn_fragment_is_shown_not_dropped() {
    // A long-filename run whose 8.3 entry has been reused: the name survives with nothing
    // left to attach it to.
    let mut img = big();
    let (g, _) = Geom::derive(&img, 0);
    let at = g.data_start as usize;
    synth_lfn(&mut img, at, 0x41, 0x5A, "ghost.txt");
    // record 1 left zero -> end of directory, so nothing follows the fragment
    let s = MemSource::new(img);
    let root = FatProbe.open(&s, 0).root();
    let kids = list_root(&root, &s);
    let orphan = kids
        .items
        .iter()
        .find_map(|i| match i {
            DirItem::Orphan(o) => Some(o),
            _ => None,
        })
        .unwrap_or_else(|| panic!("{:?}", labels(&kids)));
    assert_eq!(orphan.label(), "orphan LFN \"ghost.txt\"");
    assert!(orphan.message().contains("0x5A"));
    assert_eq!(orphan.finding(), Finding::Orphan);
}

#[test]
fn a_long_name_that_does_not_belong_to_its_short_entry_is_flagged() {
    let mut img = big();
    let (g, _) = Geom::derive(&img, 0);
    let at = g.data_start as usize;
    // checksum 0x00 cannot be right for "OTHER   TXT"
    synth_lfn(&mut img, at, 0x41, 0x00, "impostor.txt");
    synth_entry(&mut img, at + 32, b"OTHER   TXT", 0x20, 0, 1);
    let s = MemSource::new(img);
    let root = FatProbe.open(&s, 0).root();
    let kids = list_root(&root, &s);
    let g = file(&kids, "impostor.txt");
    assert_eq!(g.together, vec![Finding::AlienLongName]);
    assert!(g.alien_message().contains("does not belong"), "{}", g.alien_message());
    assert_eq!(g.status(), Status::Warn);
}

#[test]
fn a_never_used_record_that_is_not_zero_is_surfaced_as_residue() {
    let mut img = big();
    let (g, _) = Geom::derive(&img, 0);
    let at = g.data_start as usize;
    synth_entry(&mut img, at, b"LIVE    TXT", 0x20, 0, 10);
    // first byte 0x00 (never used) but the rest of the record still populated
    synth_entry(&mut img, at + 32, b"\x00LDNAME TXT", 0x20, 7, 1234);
    let s = MemSource::new(img);
    let root = FatProbe.open(&s, 0).root();
    let kids = list_root(&root, &s);
    let r = kids
        .items
        .iter()
        .find_map(|i| match i {
            DirItem::Residue(r) => Some(r),
            _ => None,
        })
        .expect("residue shown");
    assert!(r.label().starts_with("residue"));
    let size = r.record.fields.iter().find(|f| f.name == "file_size").unwrap();
    assert_eq!(size.number, Some(1234));
    assert!(r.finding().message().contains("overwritten rather than erased"));
}

fn twelve() -> Geom {
    Geom {
        base: 0,
        bytes_per_sector: 512,
        sectors_per_cluster: 1,
        bytes_per_cluster: 512,
        reserved_sectors: 1,
        num_fats: 1,
        root_entries: 16,
        fat_size: 1,
        total_sectors: 8,
        root_dir_sectors: 1,
        data_sectors: 5,
        cluster_count: 5,
        kind: FatKind::Fat12,
        root_cluster: 0,
        fat_start: 512,
        root_dir_start: 1024,
        data_start: 1536,
        sane: true,
        device_len: 4096,
    }
}

#[test]
fn fat12_entries_unpack_from_their_shared_nibble() {
    // Two 12-bit entries, 0x123 and 0x456, pack into three bytes as 23 61 45.
    let mut img = vec![0u8; 4096];
    img[512..515].copy_from_slice(&[0x23, 0x61, 0x45]);
    let g = twelve();
    let s = MemSource::new(img);
    assert_eq!(fat_entry(&s, &g, 0, 0), Some(0x123));
    assert_eq!(fat_entry(&s, &g, 0, 1), Some(0x456));
    // and the 12-bit markers are the ones FAT12 uses, not FAT32's
    assert_eq!(FatKind::Fat12.eoc_min(), 0xFF8);
    assert_eq!(FatKind::Fat12.bad_mark(), 0xFF7);
}

#[test]
fn corrupting_a_valid_volume_never_panics_however_deep_you_expand() {
    // Garbage that happens to have a valid boot sector is the dangerous input: the
    // geometry is sane enough to seek with, and everything past it is hostile.
    let mut img = big();
    let (g, _) = Geom::derive(&img, 0);
    synth_entry(&mut img, g.data_start as usize, b"DIR        ", 0x10, 3, 0);
    let base = img.clone();
    // A deterministic sweep rather than a random one, so a failure is repeatable.
    for seed in 0u64..64 {
        let mut img = base.clone();
        let mut x = seed.wrapping_mul(0x9E37_79B9_7F4A_7C15).wrapping_add(1);
        for _ in 0..512 {
            x ^= x << 13;
            x ^= x >> 7;
            x ^= x << 17;
            let i = (x as usize) % img.len();
            img[i] = (x >> 32) as u8;
        }
        let s = MemSource::new(img);
        let root = FatProbe.open(&s, 0).root();
        if let Some(a) = &root.area {
            for t in &a.tables {
                let _ = t.preview.expand(&s);
            }
            if let Some(m) = a.mirror {
                let _ = m.expand(&s);
            }
        }
        let mut queue: Vec<DirExpander> = root.root.and_then(|r| r.dir).into_iter().collect();
        let mut visited = 0usize;
        while let Some(d) = queue.pop() {
            let listing = d.expand(&s);
            for i in &listing.items {
                visited += 1;
                if let DirItem::File(f) = i {
                    if let Some(c) = f.chain {
                        let _ = c.expand(&s);
                    }
                    if let Some(c) = f.contents {
                        queue.push(c.dir);
                    }
                }
            }
            if visited > 4000 {
                break;
            }
        }
    }
}

#[test]
fn a_truncated_boot_sector_is_unreadable_not_zeros() {
    let s = MemSource::new(vec![0u8; 16]);
    let root = FatProbe.open(&s, 0).root();
    assert!(root.boot.bpb.fields.iter().any(|f| !f.present));
    assert!(root.boot.findings.contains(&Finding::SignatureMissing));
}

// ------------------------------------------------------------------- own scenarios

#[test]
fn a_made_volume_is_recognised_without_reservation() {
    let s = MemSource::new(big());
    assert_eq!(FatProbe.probe(&s, 0), 100);
    let r = FatReader::new(&s, 0);
    let g = r.geometry();
    assert_eq!((g.kind, g.fat_start, g.data_start), (FatKind::Fat32, 16384, (32 + 1600) * 512));
    assert_eq!(follow_chain(&s, &g, 2, 1), (vec![2], ChainEnd::Eoc(0x0FFF_FFFF)));
    let v = r.root();
    assert_eq!(v.label(), "FAT32 volume");
    assert_eq!((r.id(), r.base()), ("fat", 0));
    assert_eq!(v.computed.root_dir_offset, None);
    assert_eq!(v.computed.cluster_count, g.cluster_count);
}

#[test]
fn a_volume_that_overruns_its_device_is_not_sold_as_certain() {
    let mut img = big();
    img.truncate(50_000 * 512);
    assert_eq!(FatProbe.probe(&MemSource::new(img), 0), 90);
    let mut img = big();
    img[0x20..0x24].copy_from_slice(&1u32.to_le_bytes()); // no room for a data region
    assert_eq!(FatProbe.probe(&MemSource::new(img), 0), 40);
}

#[test]
fn a_deleted_long_name_gives_its_first_character_back() {
    let mut img = big();
    let (g, _) = Geom::derive(&img, 0);
    let at = g.data_start as usize;
    let sum = short_name_checksum(b"SECRET~1TXT");
    synth_lfn(&mut img, at, 0x42, sum, "es.txt");
    synth_lfn(&mut img, at + 32, 0x01, sum, "secret-nam\u{e9}");
    synth_entry(&mut img, at + 64, b"SECRET~1TXT", 0x20, 9, 77);
    for i in 0..3 {
        img[at + 32 * i] = 0xE5;
    }
    let s = MemSource::new(img);
    let v = FatProbe.open(&s, 0).root();
    let listing = list_root(&v, &s);
    let f = file(&listing, "secret-nam\u{e9}es.txt");
    assert_eq!(f.label, "secret-nam\u{e9}es.txt (deleted)");
    assert_eq!(f.short_label, "?ECRET~1.TXT (8.3)");
    assert_eq!(f.first_cluster.cluster, 9);
    assert_eq!(f.first_cluster.finding, Some(Finding::ChainReleased { cluster: 9 }));
    assert_eq!(
        f.together,
        vec![
            Finding::LongNameSurvives,
            Finding::FirstCharacter { byte: b'S', stored_sum: sum }
        ]
    );
    assert!(f.together[1].message().contains("was 'S'"), "{}", f.together[1].message());
    assert!(f.survivor_message().contains("secret-nam\u{e9}es.txt"));
    assert_eq!(f.fragments.len(), 2);
    assert_eq!(f.fragments[0].label, "LFN ?/2 \"es.txt\"");
    assert!(f.fragments[0].findings.contains(&Finding::SequenceLost));
    assert_eq!(recover_first_char(b"\xE5ECRET~1TXT", sum), vec![b'S']);
}

#[test]
fn a_live_long_name_is_joined_in_order() {
    let mut img = big();
    let (g, _) = Geom::derive(&img, 0);
    let at = g.data_start as usize;
    let sum = short_name_checksum(b"LONGNA~1TXT");
    synth_lfn(&mut img, at, 0x42, sum, "e.txt");
    synth_lfn(&mut img, at + 32, 0x01, sum, "a-longer-nam\u{e9}");
    synth_entry(&mut img, at + 64, b"LONGNA~1TXT", 0x20, 0, 5);
    let s = MemSource::new(img);
    let v = FatProbe.open(&s, 0).root();
    let listing = list_root(&v, &s);
    let f = file(&listing, "a-longer-nam\u{e9}e.txt");
    assert_eq!(f.long, "a-longer-nam\u{e9}e.txt");
    assert!(f.together.is_empty());
    assert_eq!(f.fragments[0].label, "LFN 2/2 \"e.txt\"");
    assert_eq!(f.fragments[1].label, "LFN 1/2 \"a-longer-nam\u{e9}\"");
    assert_eq!(f.status(), Status::Clean);
    assert_eq!(f.spans.len(), 3);
    assert_eq!(f.spans[0].at, at as u64 + 64);
}

#[test]
fn a_run_without_its_last_bit_and_a_spliced_one_are_told_apart() {
    let mut img = big();
    let (g, _) = Geom::derive(&img, 0);
    let at = g.data_start as usize;
    let sum = short_name_checksum(b"A       TXT");
    synth_lfn(&mut img, at, 0x02, sum, "x");
    synth_lfn(&mut img, at + 32, 0x41, sum, "y");
    synth_entry(&mut img, at + 64, b"A       TXT", 0x20, 0, 5);
    let s = MemSource::new(img);
    let v = FatProbe.open(&s, 0).root();
    let listing = list_root(&v, &s);
    let f = file(&listing, "yx");
    assert_eq!(f.fragments[0].findings, vec![Finding::NoLastBit]);
    assert_eq!(f.fragments[1].findings, vec![Finding::SplicedRun]);
}

#[test]
fn every_record_of_a_listing_is_accounted_for() {
    let mut img = big();
    let (g, _) = Geom::derive(&img, 0);
    let at = g.data_start as usize;
    synth_entry(&mut img, at, b"LIVE    TXT", 0x20, 0, 10);
    synth_lfn(&mut img, at + 64, 0x41, 0x11, "lost");
    synth_entry(&mut img, at + 96, b"\x00HALF   TXT", 0x20, 0, 9);
    let s = MemSource::new(img);
    let v = FatProbe.open(&s, 0).root();
    let listing = list_root(&v, &s);
    let mut records = 0u64;
    for i in &listing.items {
        records += match i {
            DirItem::Orphan(_) | DirItem::Residue(_) => 1,
            DirItem::End { blank, .. } => *blank as u64,
            DirItem::File(f) => 1 + f.fragments.len() as u64,
            DirItem::Unused { count } => *count,
        };
    }
    assert_eq!(records, 512 / 32);
    let l = labels(&listing);
    assert_eq!(l[0], "LIVE.TXT");
    assert!(l[1].starts_with("end of directory @0x"));
    assert_eq!(l[2], "orphan LFN \"lost\"");
    assert!(l[3].starts_with("residue @0x"));
    assert_eq!(l[4], "12 unused entries (all zero)");
}

#[test]
fn a_subdirectory_leads_one_level_down() {
    let mut img = big();
    let (g, _) = Geom::derive(&img, 0);
    let at = g.data_start as usize;
    synth_entry(&mut img, at, b"SUB        ", 0x10, 3, 0);
    synth_entry(&mut img, at + 512, b".          ", 0x10, 3, 0);
    synth_entry(&mut img, at + 544, b"..         ", 0x10, 0, 0);
    synth_entry(&mut img, at + 576, b"DEEP    TXT", 0x20, 0, 0);
    let fat = g.fat_start as usize;
    img[fat + 12..fat + 16].copy_from_slice(&0x0FFF_FFFFu32.to_le_bytes());
    let s = MemSource::new(img);
    let v = FatProbe.open(&s, 0).root();
    let listing = list_root(&v, &s);
    let sub = file(&listing, "SUB/");
    let contents = sub.contents.unwrap();
    assert_eq!(contents.dir.depth, 1);
    assert_eq!(contents.label(), format!("contents (cluster {})", contents.dir.start()));
    let below = contents.dir.expand(&s);
    assert_eq!(labels(&below)[..3], [".".to_string(), "..".to_string(), "DEEP.TXT".to_string()]);
    assert!(file(&below, ".").contents.is_none());
    let chain = sub.chain.unwrap().expand(&s);
    assert_eq!(chain.rows.len(), 1);
    assert_eq!(chain.rows[0].label(), "[0] cluster 3");
}

#[test]
fn an_entry_outside_the_volume_and_a_label_with_a_cluster_are_flagged() {
    let mut img = big();
    let (g, _) = Geom::derive(&img, 0);
    let at = g.data_start as usize;
    synth_entry(&mut img, at, b"NOWHERE TXT", 0x20, 0x0FFF_0000, 10);
    synth_entry(&mut img, at + 32, b"MYDISK     ", 0x08, 5, 0);
    let s = MemSource::new(img);
    let v = FatProbe.open(&s, 0).root();
    let listing = list_root(&v, &s);
    let f = file(&listing, "NOWHERE");
    assert!(matches!(
        f.first_cluster.finding,
        Some(Finding::ClusterOutside { cluster: 0x0FFF_0000, .. })
    ));
    assert!(f.chain.is_none());
    let l = file(&listing, "MYDISK (volume label)");
    assert!(l.findings.contains(&Finding::LabelWithCluster));
    assert!(l.chain.is_none());
}

#[test]
fn an_unreadable_directory_is_not_an_empty_one() {
    let img = big();
    let (g, _) = Geom::derive(&img, 0);
    let s = FailingSource { inner: MemSource::new(img), fail_from: g.data_start };
    let v = FatProbe.open(&s, 0).root();
    let listing = list_root(&v, &s);
    assert_eq!(listing.finding, Some(Finding::DirectoryUnreadable));
    assert!(listing.items.is_empty());
    assert_eq!(Finding::DirectoryUnreadable.status(), Status::Unreadable);
}

#[test]
fn a_root_outside_the_data_region_is_not_listed() {
    let mut img = big();
    img[0x2C..0x30].copy_from_slice(&0u32.to_le_bytes());
    let s = MemSource::new(img);
    let v = FatProbe.open(&s, 0).root();
    let root = v.root.unwrap();
    assert!(root.dir.is_none());
    assert_eq!(root.finding, Some(Finding::RootOutside { cluster: 0 }));
    assert_eq!(v.deep_status(), Status::Bad);
}

#[test]
fn how_a_chain_can_end() {
    let mut img = big();
    let (g, _) = Geom::derive(&img, 0);
    let fat = g.fat_start as usize;
    let mut put = |c: usize, v: u32| {
        img[fat + 4 * c..fat + 4 * c + 4].copy_from_slice(&v.to_le_bytes());
    };
    put(10, 11);
    put(11, 0x0FFF_FFF7);
    put(20, 21);
    put(30, 31);
    put(31, 0xF000_0020);
    put(32, 0x0FFF_FFF8);
    let s = MemSource::new(img.clone());
    assert_eq!(follow_chain(&s, &g, 10, 9), (vec![10, 11], ChainEnd::Bad(11)));
    assert_eq!(follow_chain(&s, &g, 20, 9), (vec![20, 21], ChainEnd::Free(21)));
    // The top four bits of an entry are not part of the number.
    assert_eq!(follow_chain(&s, &g, 30, 9), (vec![30, 31, 32], ChainEnd::Eoc(0x0FFF_FFF8)));
    assert_eq!(follow_chain(&s, &g, 30, 2), (vec![30, 31], ChainEnd::Truncated));
    assert_eq!(follow_chain(&s, &g, 1, 9), (vec![], ChainEnd::OutOfRange(1)));
    let f = FailingSource { inner: MemSource::new(img), fail_from: g.fat_start };
    assert_eq!(follow_chain(&f, &g, 30, 9), (vec![30], ChainEnd::Unreadable(30)));
}

#[test]
fn fsinfo_and_the_backup_are_read() {
    let mut img = big();
    img[512 + 0x1E8..512 + 0x1EC].copy_from_slice(&200_000u32.to_le_bytes());
    img.copy_within(0..512, 6 * 512);
    let s = MemSource::new(img.clone());
    let v = FatProbe.open(&s, 0).root();
    let info = v.fsinfo.unwrap();
    assert_eq!(info.label(), "FAT32 FSInfo @sector 1");
    assert!(info
        .findings
        .iter()
        .any(|f| matches!(f, Finding::FreeCountHigh { free: 200_000, .. })));
    let backup = v.backup.unwrap();
    assert_eq!(backup.label(), "backup boot sector @sector 6");
    assert_eq!(backup.finding, Finding::BackupSame);
    img[6 * 512 + 0x15] = 0xF0;
    let s = MemSource::new(img);
    let v = FatProbe.open(&s, 0).root();
    assert_eq!(v.backup.unwrap().finding, Finding::BackupDiffers { offset: 0x15 });
}

#[test]
fn a_written_record_reads_back_and_touches_nothing_else() {
    let mut img = vec![0xAAu8; 96];
    synth_entry(&mut img, 32, b"NAME    EXT", 0x21, 0x0102_0304, 0x0506_0708);
    assert_eq!(&img[..32], &[0xAA; 32]);
    assert_eq!(&img[64..], &[0xAA; 32]);
    assert_eq!(&img[32..43], b"NAME    EXT");
    assert_eq!(img[43], 0x21);
    assert_eq!(&img[52..54], &[0x02, 0x01]);
    assert_eq!(&img[58..64], &[0x04, 0x03, 0x08, 0x07, 0x06, 0x05]);
    let before = img.clone();
    synth_entry(&mut img, 70, b"TOO     FAR", 0, 0, 0);
    assert_eq!(img, before);
}

#[test]
fn the_preview_of_a_table_names_its_entries() {
    let mut img = big();
    let (g, _) = Geom::derive(&img, 0);
    let fat = g.fat_start as usize;
    img[fat + 12..fat + 16].copy_from_slice(&0x0FFF_FFF7u32.to_le_bytes());
    let s = MemSource::new(img);
    let v = FatProbe.open(&s, 0).root();
    let tables = v.area.unwrap().tables;
    let p = tables[0].preview.expand(&s);
    assert!(p.rows[0].finding.unwrap().message().contains("media"));
    assert_eq!(p.rows[2].finding, Some(Finding::EndEntry));
    assert_eq!(p.rows[3].finding, Some(Finding::BadEntry { cluster: 3 }));
    assert_eq!(p.rows[4].finding, Some(Finding::FreeEntry));
    assert!(p.hidden > 0);
    assert_eq!(p.hidden_label(), format!("... {} further entries not shown", p.hidden));
}

#[test]
fn a_fixed_root_directory_is_listed_in_place() {
    // 4200 clusters, 512 root entries: FAT16.
    let mut img = vec![0u8; 4300 * 512];
    img[0..3].copy_from_slice(&[0xEB, 0x3C, 0x90]);
    img[0x0B..0x0D].copy_from_slice(&512u16.to_le_bytes());
    img[0x0D] = 1;
    img[0x0E] = 1;
    img[0x10] = 2;
    img[0x11..0x13].copy_from_slice(&512u16.to_le_bytes());
    img[0x13..0x15].copy_from_slice(&4300u16.to_le_bytes());
    img[0x15] = 0xF8;
    img[0x16..0x18].copy_from_slice(&17u16.to_le_bytes());
    img[0x26] = 0x29;
    img[0x36..0x3E].copy_from_slice(b"FAT16   ");
    img[0x1FE] = 0x55;
    img[0x1FF] = 0xAA;
    let root_at = (1 + 2 * 17) * 512;
    synth_entry(&mut img, root_at, b"HERE    TXT", 0x20, 0, 3);
    let s = MemSource::new(img);
    assert_eq!(FatProbe.probe(&s, 0), 100);
    let v = FatProbe.open(&s, 0).root();
    assert_eq!(v.geom.kind, FatKind::Fat16);
    let root = v.root.unwrap();
    assert_eq!(root.label(), "root directory (512 entries)");
    assert_eq!((root.span.at, root.span.len), (root_at as u64, 512 * 32));
    let listing = root.dir.unwrap().expand(&s);
    assert_eq!(labels(&listing)[0], "HERE.TXT");
    assert!(listing.summary.is_none());
    assert!(v.fsinfo.is_none() && v.backup.is_none());
}

#[test]
fn a_kind_is_named_as_a_formatter_writes_it() {
    for (kind, name) in [(FatKind::Fat12, "FAT12"), (FatKind::Fat16, "FAT16"), (FatKind::Fat32, "FAT32")] {
        assert_eq!(kind.name(), name);
        assert_eq!(kind.fs_type_string(), name);
    }
}

#[test]
fn an_unusable_boot_sector_derives_nothing() {
    let base = 1 << 20;
    let mut bad_size = big();
    bad_size[0x0D] = 3;
    // 32 reserved sectors and two FATs of 800, and not one cluster of 128 behind them.
    let mut no_cluster = big();
    no_cluster[0x0D] = 128;
    no_cluster[0x20..0x24].copy_from_slice(&1700u32.to_le_bytes());
    for img in [&bad_size, &no_cluster] {
        let (g, findings) = Geom::derive(img, base);
        assert!(!g.sane);
        assert!(!findings.is_empty());
        assert_eq!(g.base, base);
        assert_eq!(g.reserved_sectors, 32);
        assert_eq!(
            [g.bytes_per_cluster, g.fat_size, g.total_sectors, g.root_dir_sectors, g.data_sectors],
            [0; 5]
        );
        assert_eq!([g.cluster_count, g.fat_start, g.root_dir_start, g.data_start], [0; 4]);
        assert_eq!(g.cluster_to_byte(2), None);
    }
    assert!(says(&Geom::derive(&no_cluster, base).1, "cluster"));
}

#[test]
fn a_cluster_past_the_last_has_no_offset() {
    let (g, _) = Geom::derive(&big(), 0);
    let last = g.last_cluster();
    assert_eq!(last, g.cluster_count + 1);
    assert_eq!(g.cluster_to_byte(2), Some(g.data_start));
    assert_eq!(g.cluster_to_byte(last), Some(g.data_start + (last - 2) * 512));
    for c in [0, 1, last + 1, u64::MAX] {
        assert_eq!(g.cluster_to_byte(c), None, "cluster {c}");
    }
}

#[test]
fn a_byte_of_a_table_names_the_cluster_whose_entry_starts_there() {
    assert_eq!(cluster_at_byte(FatKind::Fat32, 40), 10);
    assert_eq!(cluster_at_byte(FatKind::Fat16, 40), 20);
    let twelve_bits: Vec<u64> = (0..7).map(|o| cluster_at_byte(FatKind::Fat12, o)).collect();
    assert_eq!(twelve_bits, vec![0, 1, 1, 2, 3, 3, 4]);
    assert_eq!(cluster_at_byte(FatKind::Fat12, u64::MAX), 12297829382473034410);
    for c in 0..5000u64 {
        assert_eq!(cluster_at_byte(FatKind::Fat12, c + c / 2), c);
        assert_eq!(cluster_at_byte(FatKind::Fat16, 2 * c), c);
        assert_eq!(cluster_at_byte(FatKind::Fat32, 4 * c), c);
    }
}

#[test]
fn a_table_says_how_long_its_preview_is() {
    let s = MemSource::new(big());
    let root = FatProbe.open(&s, 0).root();
    let area = root.area.unwrap();
    assert_eq!(area.tables[0].preview.hint_len(), Some(65));
}
