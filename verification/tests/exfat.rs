use blktamper_formats::checksum::ChecksumAlgo;
use blktamper_formats::exfat::boot::boot_checksum;
use blktamper_formats::exfat::chain::{abs_of, cluster_chain, cluster_runs};
use blktamper_formats::exfat::desc;
use blktamper_formats::exfat::directory::{Entry, Item};
use blktamper_formats::exfat::entry::{name_hash_ascii, set_checksum};
use blktamper_formats::exfat::entry_set::{ClusterList, EntrySet};
use blktamper_formats::exfat::fat_table::{FatEntries, FatTable};
use blktamper_formats::exfat::finding::Finding;
use blktamper_formats::exfat::types;
use blktamper_formats::exfat::volume::ExfatVolume;
use blktamper_formats::exfat::{synth_entry_set, synth_volume, ExfatProbe, Geometry};
use blktamper_formats::extent::Span;
use blktamper_formats::source::{FailingSource, MemSource};
use blktamper_formats::status::Status;

/// The 96 bytes exfatprogs accepts as `/HELLO.TXT`: a 0x85 entry with `secondary_count`
/// 2, set checksum 0xC804 and name hash 0x3046.
const HELLO_SET: [u8; 96] = [
    0x85, 0x02, 0x04, 0xC8, 0x20, 0x00, 0x00, 0x00, 0x5C, 0x64, 0x30, 0x5D, 0x5C, 0x64, 0x30, 0x5D,
    0x5C, 0x64, 0x30, 0x5D, 0x00, 0x00, 0x00, 0x00, 0x00, 0x00, 0x00, 0x00, 0x00, 0x00, 0x00, 0x00,
    0xC0, 0x03, 0x00, 0x09, 0x46, 0x30, 0x00, 0x00, 0x00, 0x10, 0x00, 0x00, 0x00, 0x00, 0x00, 0x00,
    0x00, 0x00, 0x00, 0x00, 0x06, 0x00, 0x00, 0x00, 0x00, 0x10, 0x00, 0x00, 0x00, 0x00, 0x00, 0x00,
    0xC1, 0x00, 0x48, 0x00, 0x45, 0x00, 0x4C, 0x00, 0x4C, 0x00, 0x4F, 0x00, 0x2E, 0x00, 0x54, 0x00,
    0x58, 0x00, 0x54, 0x00, 0x00, 0x00, 0x00, 0x00, 0x00, 0x00, 0x00, 0x00, 0x00, 0x00, 0x00, 0x00,
];

/// A set after a delete: five type bytes lost bit 7 and nothing else moved.
const DELETED_SET: [u8; 160] = [
    0x05, 0x04, 0xC7, 0xD7, 0x20, 0x00, 0x00, 0x00, 0x5C, 0x64, 0x30, 0x5D, 0x5C, 0x64, 0x30, 0x5D,
    0x5C, 0x64, 0x30, 0x5D, 0x00, 0x00, 0x00, 0x00, 0x00, 0x00, 0x00, 0x00, 0x00, 0x00, 0x00, 0x00,
    0x40, 0x03, 0x00, 0x22, 0xC8, 0xFE, 0x00, 0x00, 0x00, 0x20, 0x00, 0x00, 0x00, 0x00, 0x00, 0x00,
    0x00, 0x00, 0x00, 0x00, 0x07, 0x00, 0x00, 0x00, 0x00, 0x20, 0x00, 0x00, 0x00, 0x00, 0x00, 0x00,
    0x41, 0x00, 0x53, 0x00, 0x45, 0x00, 0x43, 0x00, 0x52, 0x00, 0x45, 0x00, 0x54, 0x00, 0x2D, 0x00,
    0x4E, 0x00, 0x4F, 0x00, 0x54, 0x00, 0x45, 0x00, 0x53, 0x00, 0x2D, 0x00, 0x54, 0x00, 0x48, 0x00,
    0x41, 0x00, 0x41, 0x00, 0x54, 0x00, 0x2D, 0x00, 0x57, 0x00, 0x45, 0x00, 0x52, 0x00, 0x45, 0x00,
    0x2D, 0x00, 0x44, 0x00, 0x45, 0x00, 0x4C, 0x00, 0x45, 0x00, 0x54, 0x00, 0x45, 0x00, 0x44, 0x00,
    0x41, 0x00, 0x2E, 0x00, 0x54, 0x00, 0x58, 0x00, 0x54, 0x00, 0x00, 0x00, 0x00, 0x00, 0x00, 0x00,
    0x00, 0x00, 0x00, 0x00, 0x00, 0x00, 0x00, 0x00, 0x00, 0x00, 0x00, 0x00, 0x00, 0x00, 0x00, 0x00,
];

const DELETED_NAME: &str = "SECRET-NOTES-THAT-WERE-DELETED.TXT";

/// Byte offset of the root directory and of the FAT in a made volume.
const SYNTH_ROOT: usize = 32 * 512;
const SYNTH_FAT: usize = 24 * 512;

fn root_of(img: Vec<u8>) -> ExfatVolume {
    let src = MemSource::new(img);
    ExfatProbe.open(&src, 0).root()
}

/// Everything the volume says, messages and hints.
fn messages(v: &ExfatVolume) -> Vec<String> {
    let mut out: Vec<String> = Vec::new();
    for f in v.collect() {
        out.push(f.message());
        if let Some(h) = f.hint() {
            out.push(h);
        }
    }
    for r in [&v.main, &v.backup] {
        if let Some(c) = &r.checksum {
            if c.differing_total > 0 {
                out.push(c.differing_message());
            }
        }
    }
    if !v.diff.sectors.is_empty() {
        out.push(v.diff.sectors_message());
    }
    for f in &v.diff.fields {
        out.push(f.message());
    }
    if let Some(c) = v.bitmap.as_ref().and_then(|b| b.crosscheck.as_ref()) {
        if !c.chained_but_free.is_empty() {
            out.push(c.stray_message());
        }
    }
    out
}

fn says(v: &ExfatVolume, needle: &str) -> bool {
    messages(v).iter().any(|m| m.contains(needle))
}

fn found(fs: &[Finding], needle: &str) -> bool {
    fs.iter().any(|f| f.message().contains(needle))
}

fn items(v: &ExfatVolume) -> &[Item] {
    match &v.root {
        Some(d) => &d.items,
        None => &[],
    }
}

fn find<'a>(v: &'a ExfatVolume, needle: &str) -> Option<&'a Item> {
    items(v).iter().find(|i| i.label().contains(needle))
}

fn set_in(item: &Item) -> &EntrySet {
    match &item.entry {
        Entry::File(s) => s,
        other => panic!("not a set: {other:?}"),
    }
}

fn file_data(v: &ExfatVolume) -> &ClusterList {
    items(v)
        .iter()
        .find_map(|i| match &i.entry {
            Entry::File(s) => s.data.as_ref(),
            _ => None,
        })
        .expect("file data")
}

fn bytes_of(c: &ClusterList) -> u64 {
    c.extent.iter().map(|s| s.len).sum()
}

#[test]
fn a_synthetic_volume_is_recognised_and_fully_parsed() {
    let img = synth_volume(&synth_entry_set("HELLO.TXT", 5, 512, true, false));
    assert!(ExfatProbe.probe(&MemSource::new(img.clone()), 0) >= 80);
    let root = root_of(img);
    assert!(find(&root, "volume label entry \"SYNTH\"").is_some());
    assert!(find(&root, "file \"HELLO.TXT\"").is_some());
    assert!(root.bitmap.is_some());
    assert!(root.upcase.is_some());
    assert!(!root.deep_status().is_anomaly(), "a clean volume must not report an anomaly");
}

#[test]
fn only_the_fs_name_makes_this_exfat() {
    // A FAT boot sector: same jump, same 55 AA, different name at offset 3.
    let mut fat = vec![0u8; 1 << 20];
    fat[0..3].copy_from_slice(&[0xEB, 0x58, 0x90]);
    fat[3..11].copy_from_slice(b"MSDOS5.0");
    fat[0x1FE] = 0x55;
    fat[0x1FF] = 0xAA;
    assert_eq!(ExfatProbe.probe(&MemSource::new(fat), 0), 0);

    // NTFS: likewise.
    let mut ntfs = vec![0u8; 1 << 20];
    ntfs[0..3].copy_from_slice(&[0xEB, 0x52, 0x90]);
    ntfs[3..11].copy_from_slice(b"NTFS    ");
    ntfs[0x1FE] = 0x55;
    ntfs[0x1FF] = 0xAA;
    assert_eq!(ExfatProbe.probe(&MemSource::new(ntfs), 0), 0);
}

#[test]
fn the_signature_alone_does_not_earn_a_confident_score() {
    // The name is there, the geometry is not.
    let mut bare = vec![0u8; 1 << 20];
    bare[3..11].copy_from_slice(b"EXFAT   ");
    bare[0x1FE] = 0x55;
    bare[0x1FF] = 0xAA;
    let score = ExfatProbe.probe(&MemSource::new(bare.clone()), 0);
    assert!(score > 0, "the signature is real evidence");
    assert!(score < 80, "but geometry that does not add up must keep it below 80, got {score}");
    // Forcing the interpretation still produces everything.
    let root = root_of(bare);
    assert!(root.main.boot_sector.is_some());
}

#[test]
fn a_sector_shift_of_200_is_a_diagnostic_not_a_shift() {
    let mut img = synth_volume(&[]);
    img[0x6C] = 200;
    let root = root_of(img);
    assert!(says(&root, "bytes_per_sector_shift is 200"), "{:?}", root.findings);
    assert!(says(&root, "geometry is unusable"));
    // and the boot sector is still shown in full
    assert!(root.main.boot_sector.is_some());
}

#[test]
fn a_cluster_larger_than_32_mib_is_refused_before_it_is_shifted() {
    let mut img = synth_volume(&[]);
    img[0x6C] = 12; // 4096-byte sectors
    img[0x6D] = 25; // x 2^25 sectors == 128 GiB per cluster
    let root = root_of(img);
    assert!(says(&root, "the specification caps a cluster at 32 MiB"), "{:?}", root.findings);

    // And a shift past the field's own range is caught before the shift happens.
    let mut img = synth_volume(&[]);
    img[0x6D] = 200;
    let root = root_of(img);
    assert!(says(&root, "sectors_per_cluster_shift is 200"));
}

#[test]
fn the_boot_checksum_skips_the_two_fields_a_driver_rewrites() {
    let img = synth_volume(&[]);
    let clean = root_of(img.clone());
    assert!(!says(&clean, "stored"), "the generated volume must check out");

    // VolumeFlags (106..108) and PercentInUse (112) are skipped, so a driver may
    // rewrite them on mount without touching sector 11.
    for off in [106usize, 107, 112] {
        let mut m = img.clone();
        m[off] = 0x5A;
        let root = root_of(m);
        let ck = root.main.checksum.expect("checksum");
        assert!(ck.matches, "byte {off} is excluded from the checksum and must not break it");
    }

    // Any other byte of the region does break it.
    let mut m = img.clone();
    m[0x64] ^= 0xFF; // volume_serial_number
    let root = root_of(m);
    let ck = root.main.checksum.expect("checksum");
    assert!(!ck.matches);
    assert!(ck.findings.iter().any(|d| d.message().starts_with("stored ")), "{:?}", ck.findings);
}

#[test]
fn a_checksum_sector_whose_copies_disagree_is_a_finding() {
    let mut img = synth_volume(&[]);
    img[11 * 512 + 40] ^= 0xFF;
    let root = root_of(img);
    assert!(says(&root, "copies differ from the first"), "partial writes must be visible");
}

#[test]
fn the_backup_boot_region_is_diffed_field_by_field() {
    let mut img = synth_volume(&[]);
    // Change the backup's cluster_count but not the main one.
    img[12 * 512 + 0x5C] ^= 0x01;
    let root = root_of(img);
    assert!(says(&root, "boot sector field cluster_count differs"), "{:?}", root.findings);
    assert!(says(&root, "against backup sector(s) [12]"));

    // A difference confined to the bytes the checksum skips is reported as normal
    // drift, not as damage.
    let mut img = synth_volume(&[]);
    img[106] = 0x03;
    let root = root_of(img);
    assert!(says(&root, "boot sector field volume_flags differs"));
    assert!(says(&root, "legitimately drift here"));
}

// ------------------------------------------------------------------ entry sets

#[test]
fn the_entry_set_checksum_agrees_with_exfatprogs() {
    // 0xC804 is the value exfatprogs wrote and fsck.exfat accepted.
    let (stored, computed, _) = set_checksum(&HELLO_SET, false);
    assert_eq!(stored, Some(0xC804));
    assert_eq!(computed, 0xC804);
}

#[test]
fn the_name_hash_agrees_with_exfatprogs() {
    let hello: Vec<u16> = "HELLO.TXT".encode_utf16().collect();
    assert_eq!(name_hash_ascii(&hello), Some(0x3046));
    let secret: Vec<u16> = DELETED_NAME.encode_utf16().collect();
    assert_eq!(name_hash_ascii(&secret), Some(0xFEC8));
    // Up-casing is part of the hash: the lower-case spelling hashes the same.
    let lower: Vec<u16> = "hello.txt".encode_utf16().collect();
    assert_eq!(name_hash_ascii(&lower), Some(0x3046));
    // Outside ASCII it is declined rather than guessed.
    let accented: Vec<u16> = "caf\u{e9}".encode_utf16().collect();
    assert_eq!(name_hash_ascii(&accented), None);
}

#[test]
fn a_deleted_entry_set_keeps_its_name_and_proves_it_is_intact() {
    let root = root_of(synth_volume(&DELETED_SET));
    let item = find(&root, DELETED_NAME).expect("the filename must survive the delete");
    assert!(item.label().starts_with("deleted file"), "{}", item.label());
    let set = set_in(item);
    assert!(
        found(&set.findings, "matches once the InUse bits are restored"),
        "{:?}",
        set.findings
    );
    assert!(found(&set.findings, "0x05/0x40/0x41"));
    // Every record of the set is shown, each labelled as deleted.
    let kids: Vec<String> = set.records.iter().map(|r| r.label()).collect();
    assert!(kids.iter().any(|k| k == "deleted file entry"));
    assert!(kids.iter().any(|k| k == "deleted stream extension"));
    assert_eq!(kids.iter().filter(|k| k.starts_with("deleted file name")).count(), 3);
    // A deleted set is a finding, not a fault: it must not read as damage.
    assert!(!item.status().is_anomaly());
}

#[test]
fn a_deleted_set_that_was_partly_overwritten_says_so() {
    let mut set = DELETED_SET;
    set[0x50] ^= 0xFF; // a byte of the stream extension, after the delete
    let root = root_of(synth_volume(&set));
    assert!(
        says(&root, "does not match even with the InUse bits restored"),
        "residue that was then overwritten must not be presented as intact"
    );
}

#[test]
fn a_set_whose_records_disagree_about_being_in_use_is_flagged() {
    let mut set = HELLO_SET;
    set[64] &= !0x80; // delete only the file-name entry
    let root = root_of(synth_volume(&set));
    assert!(says(&root, "do not agree about whether they are in use"));
}

#[test]
fn an_entry_set_that_runs_past_its_directory_is_truncated_not_followed() {
    let mut set = HELLO_SET.to_vec();
    set[1] = 200; // secondary_count far beyond the end of the cluster
    let root = root_of(synth_volume(&set));
    assert!(says(&root, "secondary_count says 200 but only"), "{:?}", root.findings);
}

#[test]
fn a_set_with_no_stream_extension_is_reported() {
    let mut set = HELLO_SET.to_vec();
    set[32] = types::FILE_NAME; // the stream extension becomes a second name entry
    let root = root_of(synth_volume(&set));
    assert!(says(&root, "no 0xC0 stream extension"));
}

#[test]
fn an_orphan_secondary_entry_is_shown_and_flagged() {
    let mut orphan = [0u8; 32];
    orphan[0] = types::FILE_NAME;
    orphan[2..10].copy_from_slice(&[0x4F, 0x00, 0x4C, 0x00, 0x44, 0x00, 0x21, 0x00]); // "OLD!"
    let root = root_of(synth_volume(&orphan));
    let n = find(&root, "file name entry").expect("an orphan must still be shown");
    match &n.entry {
        Entry::Single(s) => {
            assert!(found(&s.findings, "on its own"), "{:?}", s.findings);
            assert_eq!(s.spells, "OLD!");
            assert!(s.record.fields.iter().any(|f| f.name == "file_name"));
        }
        other => panic!("not a single record: {other:?}"),
    }
}

#[test]
fn records_past_the_end_of_directory_marker_are_surfaced() {
    // An end-of-directory marker, then a deleted set behind it: the shape a directory
    // takes after its last live file is removed.
    let mut entries = vec![0u8; 32];
    entries.extend_from_slice(&DELETED_SET);
    let root = root_of(synth_volume(&entries));
    assert!(says(&root, "non-zero entry slot(s) survive past the end-of-directory marker"));
    let n = find(&root, "residue").expect("residue must be shown, not skipped");
    assert!(found(&n.place(), "no driver will read it"));
    // and the name is still legible inside it
    assert!(find(&root, DELETED_NAME).is_some());
}

#[test]
fn names_render_lossily_and_are_never_refused() {
    // An unpaired surrogate in the middle of a filename: invalid UTF-16, and the one
    // thing a viewer must not do is refuse to show it.
    let mut set = HELLO_SET;
    set[66] = 0x00;
    set[67] = 0xD8; // U+D800, a lone high surrogate
    let root = root_of(synth_volume(&set));
    let n = find(&root, "file \"").expect("the set must still render");
    assert!(n.label().contains(char::REPLACEMENT_CHARACTER), "{}", n.label());
}

#[test]
fn a_name_longer_than_its_name_length_shows_the_leftover() {
    let mut set = synth_entry_set("SHORT.TXT", 5, 512, true, false);
    set[35] = 4; // claim only "SHOR"
    let root = root_of(synth_volume(&set));
    assert!(says(&root, "non-zero code units past name_length"));
}

// ------------------------------------------------------------- cluster chains

#[test]
fn nofatchain_walks_arithmetically_and_says_so() {
    // Two clusters' worth of data with NoFatChain set and the FAT left at zero: the FAT
    // must not be consulted, and the second cluster must still be found.
    let img = synth_volume(&synth_entry_set("CONTIG.BIN", 5, 1024, true, false));
    let root = root_of(img);
    let data = file_data(&root);
    assert!(found(&data.findings, "the FAT was not consulted"), "{:?}", data.findings);
    assert_eq!(data.clusters, 2, "two 512-byte clusters");
    assert_eq!(bytes_of(data), 1024);
}

#[test]
fn a_fat_chain_is_followed_when_nofatchain_is_clear() {
    let mut img = synth_volume(&synth_entry_set("CHAINED.BIN", 5, 1024, false, false));
    let fat = SYNTH_FAT;
    img[fat + 5 * 4..fat + 5 * 4 + 4].copy_from_slice(&6u32.to_le_bytes());
    img[fat + 6 * 4..fat + 6 * 4 + 4].copy_from_slice(&0xFFFF_FFFFu32.to_le_bytes());
    let root = root_of(img);
    let data = file_data(&root);
    assert_eq!(data.clusters, 2);
    assert!(!found(&data.findings, "was not consulted"));
}

#[test]
fn a_chain_with_no_end_marker_is_reported_rather_than_invented() {
    // NoFatChain clear but the FAT entry is zero: the file claims two clusters and the
    // chain has no terminator.
    let img = synth_volume(&synth_entry_set("BROKEN.BIN", 5, 1024, false, false));
    let root = root_of(img);
    assert!(says(&root, "is zero, so the chain has no end marker"));
}

#[test]
fn a_fat_chain_that_loops_terminates() {
    let mut img = synth_volume(&[]);
    let fat = SYNTH_FAT;
    // The root directory's own chain: 2 -> 3 -> 2.
    img[fat + 8..fat + 12].copy_from_slice(&3u32.to_le_bytes());
    img[fat + 12..fat + 16].copy_from_slice(&2u32.to_le_bytes());
    let root = root_of(img); // must return rather than hang
    assert!(says(&root, "it loops"));
}

#[test]
fn a_first_cluster_outside_the_heap_is_refused() {
    let img = synth_volume(&synth_entry_set("NOWHERE.BIN", 99_999, 512, true, false));
    let root = root_of(img);
    assert!(says(&root, "is outside the heap's 2..=1001 range"));
}

// ------------------------------------------------- bitmap, up-case table, FAT

#[test]
fn a_bitmap_whose_length_disagrees_with_cluster_count_is_flagged() {
    let mut img = synth_volume(&[]);
    // data_length of the 0x81 entry, at root + 32 + 0x18.
    img[SYNTH_ROOT + 32 + 0x18] = 7;
    let root = root_of(img);
    assert!(says(&root, "1000 clusters need 125"), "{:?}", root.findings);
}

#[test]
fn a_cluster_chained_in_the_fat_but_free_in_the_bitmap_is_a_finding() {
    let mut img = synth_volume(&[]);
    let fat = SYNTH_FAT;
    img[fat + 9 * 4..fat + 9 * 4 + 4].copy_from_slice(&0xFFFF_FFFFu32.to_le_bytes());
    let root = root_of(img);
    assert!(says(&root, "have a FAT entry but are marked free in the bitmap"));
}

#[test]
fn the_up_case_table_is_not_decoded_until_it_is_asked_for() {
    let src = MemSource::new(synth_volume(&[]));
    let root = ExfatProbe.open(&src, 0).root();
    let table = root.upcase.expect("the table");
    // Only where the table lies is known before it is asked for.
    assert!(!table.mappings.runs.is_empty());
    let (kids, _) = table.mappings.expand(&src);
    assert!(!kids.is_empty(), "and it must decode once asked");
}

#[test]
fn the_fat_entry_array_is_lazy_and_bounded() {
    let src = MemSource::new(synth_volume(&[]));
    let root = ExfatProbe.open(&src, 0).root();
    let (entries, _) = root.fats[0].entries.expect("FAT entry array");
    assert_eq!(entries.count, 1000);
    let (kids, _) = entries.expand(&src);
    assert_eq!(kids.len(), 1000);
    assert!(kids[0].label().starts_with("[2] end of chain"), "{}", kids[0].label());
    assert!(kids[6].label().starts_with("[8] free"), "{}", kids[6].label());
}

#[test]
fn a_bad_media_descriptor_is_reported() {
    let mut img = synth_volume(&[]);
    img[SYNTH_FAT] = 0x00;
    let root = root_of(img);
    assert!(says(&root, "expected 0xFFFFFFF8"));
}

// --------------------------------------------------------------- hostile input

#[test]
fn garbage_never_panics_and_never_pretends() {
    for seed in [0u8, 1, 0x55, 0xAA, 0xE5, 0xFF] {
        let data = vec![seed; 256 * 1024];
        let src = MemSource::new(data);
        assert_eq!(ExfatProbe.probe(&src, 0), 0, "{seed:#04X} must not be claimed as exFAT");
        // Forcing the interpretation must still produce labelled rows.
        let root = ExfatProbe.open(&src, 0).root();
        assert!(!root.main.label().is_empty());
        for i in items(&root) {
            assert!(!i.label().is_empty());
        }
    }
}

#[test]
fn every_byte_of_the_boot_sector_can_be_hostile() {
    // Fill each boot-sector field in turn. None of it may panic, and the boot sector must
    // be shown every time.
    let base = synth_volume(&synth_entry_set("X.BIN", 5, 512, true, false));
    for fd in desc::main_boot_sector().fields {
        for fill in [0x00u8, 0xFF] {
            let mut img = base.clone();
            for b in &mut img[fd.off as usize..(fd.off + fd.width) as usize] {
                *b = fill;
            }
            let root = root_of(img);
            assert!(root.main.boot_sector.is_some(), "{} {fill:#04X}", fd.name);
        }
    }
}

#[test]
fn every_directory_entry_type_byte_can_be_hostile() {
    for t in 0u8..=255 {
        let mut e = [0xA5u8; 32];
        e[0] = t;
        let root = root_of(synth_volume(&e));
        for i in items(&root) {
            assert!(!i.label().is_empty(), "type {t:#04X}");
        }
    }
}

#[test]
fn an_unreadable_device_is_never_shown_as_zeros() {
    let img = synth_volume(&[]);
    let src = FailingSource { inner: MemSource::new(img), fail_from: 4096 };
    let root = ExfatProbe.open(&src, 0).root();
    assert_eq!(
        root.deep_status(),
        Status::Unreadable,
        "an I/O error must be a distinct state, not zeros"
    );
}

#[test]
fn a_volume_that_claims_more_space_than_the_device_has_is_flagged() {
    let mut img = synth_volume(&[]);
    img[0x48..0x50].copy_from_slice(&0x00FF_FFFFu64.to_le_bytes());
    let root = root_of(img);
    assert!(says(&root, "past the end of the"));
}

#[test]
fn geometry_that_overlaps_itself_is_flagged() {
    let mut img = synth_volume(&[]);
    img[0x58..0x5C].copy_from_slice(&25u32.to_le_bytes()); // heap inside the FAT
    let root = root_of(img);
    assert!(says(&root, "they overlap"));
}

#[test]
fn a_dirty_volume_says_so() {
    let mut img = synth_volume(&[]);
    img[0x6A] = 0x02; // VolumeDirty
    let root = root_of(img);
    assert!(says(&root, "was not cleanly unmounted"));
    // ...and the boot checksum still passes, because these bytes are skipped.
    assert!(root.main.checksum.unwrap().matches);
}

#[test]
fn a_subdirectory_is_expanded_only_when_it_is_opened() {
    // A directory entry set in the root, pointing at cluster 5, which holds an entry set
    // of its own.
    let mut set = synth_entry_set("SUBDIR", 5, 512, true, false);
    set[4] = 0x10; // FileAttributes: Directory
    let ck = ChecksumAlgo::ExfatEntrySet.compute(&set, &[(2, 2)]) as u16;
    set[2..4].copy_from_slice(&ck.to_le_bytes());

    let mut img = synth_volume(&set);
    let sub = 32 * 512 + 3 * 512; // cluster 5
    img[sub..sub + HELLO_SET.len()].copy_from_slice(&HELLO_SET);

    let src = MemSource::new(img);
    let root = ExfatProbe.open(&src, 0).root();
    let dir = set_in(find(&root, "directory \"SUBDIR\"").expect("the directory entry set"));
    let clusters = dir.data.as_ref().expect("its cluster list");
    assert!(clusters.is_dir);
    // Not walked until it is opened.
    let contents = clusters.contents.as_ref().expect("something to open");
    let kids = contents.expand(&src);
    assert!(
        kids.items.iter().any(|k| k.label() == "file \"HELLO.TXT\""),
        "and it must parse once opened"
    );
}

#[test]
fn a_deleted_directorys_clusters_are_not_walked_as_a_directory() {
    // Once a directory is deleted its clusters are free and something else may already
    // own them. Showing the byte range is honest; parsing it as a directory would be
    // inventing structure.
    let mut set = synth_entry_set("GONE", 5, 512, true, false);
    set[4] = 0x10;
    let ck = ChecksumAlgo::ExfatEntrySet.compute(&set, &[(2, 2)]) as u16;
    set[2..4].copy_from_slice(&ck.to_le_bytes());
    for i in (0..set.len()).step_by(32) {
        set[i] &= !0x80;
    }
    let root = root_of(synth_volume(&set));
    let dir = set_in(find(&root, "deleted directory \"GONE\"").expect("the deleted directory"));
    let clusters = dir.data.as_ref().expect("its cluster list");
    assert!(clusters.is_dir);
    assert!(clusters.contents.is_none());
    assert!(found(&clusters.findings, "may already belong to something else"));
    assert_eq!(bytes_of(clusters), 512, "but the byte range is still shown");
}

#[test]
fn random_mutation_of_a_real_volume_never_panics() {
    // Corrupt a clean volume a byte at a time, and require labelled rows every single
    // time. The seed is fixed so a failure is reproducible.
    let base = synth_volume(&{
        let mut v = synth_entry_set("HELLO.TXT", 5, 512, true, false);
        v.extend_from_slice(&DELETED_SET);
        v
    });
    let mut rng: u64 = 0x2545_F491_4F6C_DD1D;
    let mut next = move || {
        rng ^= rng << 13;
        rng ^= rng >> 7;
        rng ^= rng << 17;
        rng
    };
    for round in 0..600 {
        let mut img = base.clone();
        // The boot region, the FAT and the root directory are where every offset comes
        // from.
        for _ in 0..(1 + round % 8) {
            let at = (next() as usize) % (35 * 512);
            img[at] = (next() >> 11) as u8;
        }
        let root = root_of(img);
        let mut rows = 0;
        for r in [&root.main, &root.backup] {
            assert!(!r.label().is_empty(), "round {round}");
            rows += r.boot_sector.as_ref().map_or(0, |b| b.fields.len());
            rows += r.ext_sectors.len();
        }
        for i in items(&root) {
            rows += 1;
            assert!(!i.label().is_empty(), "round {round}: an unlabelled row");
        }
        assert!(rows > 20, "round {round}: what was read collapsed to {rows} rows");
    }
}

// ----------------------------------------------------------------------- types

#[test]
fn the_delete_operation_is_one_bit() {
    assert!(!types::is_in_use(0x05));
    assert_eq!(types::undeleted(0x05), types::FILE);
    assert_eq!(types::undeleted(0x40), types::STREAM_EXTENSION);
    assert_eq!(types::undeleted(0x41), types::FILE_NAME);
    assert_eq!(types::undeleted(0x20), types::VOLUME_GUID);
}

#[test]
fn primary_and_secondary_are_told_apart_even_when_deleted() {
    assert!(!types::is_secondary(types::FILE));
    assert!(!types::is_secondary(0x05));
    assert!(types::is_secondary(types::STREAM_EXTENSION));
    assert!(types::is_secondary(0x41));
}

#[test]
fn criticality_survives_deletion() {
    assert!(!types::is_benign(types::FILE));
    assert!(types::is_benign(types::VOLUME_GUID));
    assert!(types::is_benign(0x20));
}

#[test]
fn deleted_types_are_named_not_unknown() {
    assert_eq!(types::entry_type_label(0x05), "deleted file");
    assert_eq!(types::entry_type_label(0xC1), "file name");
    assert_eq!(types::entry_type_label(0x7E), "unknown entry type");
}

// ------------------------------------------------------------------- own scenarios

#[test]
fn a_made_volume_has_the_geometry_it_states() {
    let img = synth_volume(&[]);
    let (g, findings) = Geometry::from_boot(&img[..512], 0, 512);
    assert!(findings.is_empty());
    assert!(g.trusted);
    assert!(g.self_consistent(img.len() as u64));
    assert_eq!(g.cluster_count, 1000);
    assert_eq!(g.heap_byte(), Some(SYNTH_ROOT as u64));
    assert_eq!(g.fat_byte(0), Some(SYNTH_FAT as u64));
    assert_eq!(g.cluster_byte(2), Some(SYNTH_ROOT as u64));
    assert_eq!(g.cluster_byte(1), None);
    assert_eq!(g.last_cluster(), 1001);
    assert!(!g.cluster_in_heap(1002));
}

#[test]
fn a_delete_is_undone_by_putting_one_bit_back() {
    let live = synth_entry_set("UNDO.TXT", 9, 100, true, false);
    let gone = synth_entry_set("UNDO.TXT", 9, 100, true, true);
    let (stored, computed, restored) = set_checksum(&gone, true);
    assert_ne!(stored, Some(computed));
    assert_eq!(restored, stored);
    let back: Vec<u8> = gone
        .iter()
        .enumerate()
        .map(|(i, b)| if i % 32 == 0 { types::undeleted(*b) } else { *b })
        .collect();
    assert_eq!(back, live);
}

#[test]
fn every_slot_of_a_directory_is_accounted_for() {
    let mut entries = synth_entry_set("A", 5, 10, true, false);
    entries.extend_from_slice(&[0u8; 32]);
    let root = root_of(synth_volume(&entries));
    let dir = root.root.unwrap();
    let slots: u64 = dir
        .items
        .iter()
        .map(|i| match &i.entry {
            Entry::File(s) => s.facts.total,
            _ => 1,
        })
        .sum();
    assert_eq!(slots + dir.vacant_slots, 512 / 32);
}

#[test]
fn the_fields_of_every_record_are_read() {
    let root = root_of(synth_volume(&HELLO_SET));
    let set = set_in(find(&root, "file \"HELLO.TXT\"").unwrap());
    assert_eq!(set.fields.len(), 3);
    let sum = set.fields[0].fields.iter().find(|f| f.name == "set_checksum").unwrap();
    assert_eq!(sum.number, Some(0xC804));
    let hash = set.fields[1].fields.iter().find(|f| f.name == "name_hash").unwrap();
    assert_eq!(hash.number, Some(0x3046));
    assert_eq!(hash.at, set.records[1].at + 4);
    match &items(&root)[1].entry {
        Entry::Single(s) => {
            let n = s.record.fields.iter().find(|f| f.name == "data_length").unwrap();
            assert_eq!(n.number, Some(125));
        }
        other => panic!("not a single record: {other:?}"),
    }
}

#[test]
fn a_name_beyond_the_basic_plane_survives_the_trip() {
    let root = root_of(synth_volume(&synth_entry_set("\u{1F4BE}.TXT", 5, 10, true, false)));
    assert!(find(&root, "file \"\u{1F4BE}.TXT\"").is_some());
}

#[test]
fn missing_critical_entries_are_named() {
    let mut img = synth_volume(&[]);
    for b in &mut img[SYNTH_ROOT..SYNTH_ROOT + 96] {
        *b = 0;
    }
    let root = root_of(img);
    assert_eq!(
        root.findings,
        vec![Finding::NoBitmapEntry, Finding::NoUpcaseEntry, Finding::NoVolumeLabel]
    );
    assert!(root.bitmap.is_none() && root.upcase.is_none());
}

#[test]
fn every_covered_byte_of_the_boot_region_is_checked() {
    let img = synth_volume(&[]);
    let (geo, _) = Geometry::from_boot(&img[..512], 0, 512);
    for i in 0..5632usize {
        let mut m = img[..6144].to_vec();
        m[i] ^= 1 << (i % 8);
        let matches = boot_checksum(&MemSource::new(m), &geo, 0).matches;
        assert_eq!(matches, i == 106 || i == 107 || i == 112, "byte {i}");
    }
}

#[test]
fn a_run_list_holds_its_clusters_in_order() {
    let img = synth_volume(&[]);
    let (geo, _) = Geometry::from_boot(&img[..512], 0, 512);
    let clusters = [5u64, 6, 2, 9];
    let runs = cluster_runs(&geo, &clusters);
    assert_eq!(runs, vec![(17920, 1024), (16384, 512), (19968, 512)]);
    for i in 0..2048u64 {
        let at = geo.cluster_byte(clusters[(i / 512) as usize]).unwrap() + i % 512;
        assert_eq!(abs_of(&runs, i), Some(at));
    }
    assert_eq!(abs_of(&runs, 2048), None);
}

#[test]
fn each_cluster_of_a_chain_is_named_by_the_one_before() {
    let mut img = synth_volume(&[]);
    for (c, next) in [(7usize, 4u32), (4, 11), (11, 0xFFFF_FFFF)] {
        img[12288 + 4 * c..12288 + 4 * c + 4].copy_from_slice(&next.to_le_bytes());
    }
    let (geo, _) = Geometry::from_boot(&img[..512], 0, 512);
    let s = MemSource::new(img);
    assert_eq!(cluster_chain(&s, &geo, 7, false, None).0, vec![7, 4, 11]);
    assert_eq!(cluster_chain(&s, &geo, 7, true, Some(1500)).0, vec![7, 8, 9]);
}

#[test]
fn a_deleted_set_differs_from_a_live_one_in_one_bit_a_record() {
    let name = "a name that takes more than one record.txt";
    let live = synth_entry_set(name, 9, 4096, false, false);
    let dead = synth_entry_set(name, 9, 4096, false, true);
    assert_eq!(live.len(), 160);
    assert_eq!(dead.len(), 160);
    for i in 0..160 {
        if i % 32 == 0 {
            assert_eq!(live[i] & 0x80, 0x80);
            assert_eq!(dead[i], live[i] & 0x7F);
        } else {
            assert_eq!(dead[i], live[i], "byte {i}");
        }
    }
}

#[test]
fn a_fat_that_cannot_be_located_goes_by_its_number() {
    let table = |extent, of| FatTable {
        index: 0,
        of,
        active: true,
        extent,
        media: None,
        reserved: None,
        entries: None,
        findings: Vec::new(),
    };
    assert_eq!(table(None, 1).label(), "FAT 0");
    assert_eq!(table(None, 2).label(), "FAT 0");
    assert_eq!(table(Some(Span::bytes(0, 512)), 1).label(), "FAT");
    assert_eq!(table(Some(Span::bytes(0, 512)), 2).label(), "FAT 0 (active)");
}

#[test]
fn the_fat_says_how_many_entries_it_has() {
    assert_eq!(FatEntries { at: 12288, count: 1000 }.hint_len(), Some(1000));
    assert_eq!(FatEntries { at: 0, count: 0 }.hint_len(), Some(0));
}

#[test]
fn the_count_of_deleted_rows_goes_by_their_labels() {
    let mut entries = synth_entry_set("GONE.TXT", 5, 512, true, true);
    entries.extend_from_slice(&synth_entry_set("KEPT.TXT", 6, 512, true, false));
    let v = root_of(synth_volume(&entries));
    assert!(says(&v, "1 entry or entry set(s) here are marked not-in-use"));
    // A file in use whose own name holds the word reads like one.
    entries.extend_from_slice(&synth_entry_set("undeleted.txt", 7, 512, true, false));
    let v = root_of(synth_volume(&entries));
    assert!(says(&v, "2 entry or entry set(s) here are marked not-in-use"));
    assert!(find(&v, "file \"undeleted.txt\"").unwrap().is_deleted());
    assert!(!find(&v, "file \"KEPT.TXT\"").unwrap().is_deleted());
}
