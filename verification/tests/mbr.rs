use blktamper_formats::mbr::ebr::walk_ebr_chain;
use blktamper_formats::mbr::entry::{find_overlaps, EntryFacts};
use blktamper_formats::mbr::finding::Finding;
use blktamper_formats::mbr::types::{lookup_status, lookup_type, mbr_types};
use blktamper_formats::mbr::{is_extended, synth_mbr, MbrProbe};
use blktamper_formats::source::MemSource;
use blktamper_formats::status::Status;

fn src_with(sector: Vec<u8>, total: usize) -> MemSource {
    let mut data = sector;
    data.resize(total, 0);
    MemSource::new(data)
}

fn says(findings: &[Finding], text: &str) -> bool {
    findings.iter().any(|f| f.message().contains(text))
}

#[test]
fn a_plain_mbr_scores_high_and_parses() {
    let s = src_with(synth_mbr(&[(0x80, 0x0C, 2048, 129_024)]), 64 * 1024 * 1024);
    assert!(MbrProbe.probe(&s, 0) >= 80);
    let r = MbrProbe.open(&s, 0);
    let root = r.root();
    let kids = &root.entries;
    assert_eq!(kids.len(), 4);
    assert!(kids[0].slot.label.contains("FAT32 LBA"));
    assert_eq!(kids[1].slot.label, "[1] --");
}

#[test]
fn a_missing_boot_signature_scores_zero_but_still_opens() {
    let mut sector = synth_mbr(&[(0x80, 0x0C, 2048, 1000)]);
    sector[0x1FE] = 0x00;
    let s = src_with(sector, 1024 * 1024);
    assert_eq!(MbrProbe.probe(&s, 0), 0);
    // Forcing the interpretation must still produce everything.
    let root = MbrProbe.open(&s, 0).root();
    assert_eq!(root.deep_status(), Status::Bad);
    assert_eq!(root.entries.len(), 4);
}

#[test]
fn a_partition_past_the_end_is_flagged() {
    let s = src_with(synth_mbr(&[(0x80, 0x83, 2048, 1_000_000)]), 1024 * 1024);
    let root = MbrProbe.open(&s, 0).root();
    let e = &root.entries[0];
    assert_eq!(e.slot.status(), Status::Bad);
    assert!(says(&e.slot.findings, "only"));
}

#[test]
fn overlapping_partitions_are_flagged_on_both() {
    let s = src_with(
        synth_mbr(&[(0x00, 0x83, 2048, 4096), (0x00, 0x83, 4096, 4096)]),
        64 * 1024 * 1024,
    );
    let root = MbrProbe.open(&s, 0).root();
    assert!(says(&root.entries[0].slot.findings, "overlaps"));
    assert!(says(&root.entries[1].slot.findings, "overlaps"));
}

#[test]
fn a_protective_mbr_is_recognised_and_not_mistaken_for_a_real_one() {
    let s = src_with(synth_mbr(&[(0x00, 0xEE, 1, 131_071)]), 64 * 1024 * 1024);
    let root = MbrProbe.open(&s, 0).root();
    assert!(root.finding.unwrap().message().contains("protective MBR"));
}

#[test]
fn an_unused_slot_holding_leftovers_is_surfaced() {
    // The slot reads as empty, but the bytes that used to describe a partition are
    // still there.
    let mut sector = synth_mbr(&[(0x80, 0x0C, 2048, 1000)]);
    let o = 0x1BE + 16; // slot 1: type/lba/len zeroed, CHS left behind
    sector[o + 1] = 0x20;
    sector[o + 2] = 0x21;
    sector[o + 3] = 0x00;
    let s = src_with(sector, 64 * 1024 * 1024);
    let root = MbrProbe.open(&s, 0).root();
    let e = &root.entries[1];
    assert!(says(&e.slot.findings, "unused but not zero"), "{:?}", e.slot.findings);
}

#[test]
fn a_self_referential_extended_chain_terminates() {
    let mut data = synth_mbr(&[(0x00, 0x05, 2048, 20480)]);
    data.resize(64 * 1024 * 1024, 0);
    // EBR at LBA 2048 that points at itself (next = 0 relative to ext start).
    let ebr = 2048 * 512;
    data[ebr + 0x1FE] = 0x55;
    data[ebr + 0x1FF] = 0xAA;
    let o = ebr + 0x1BE + 16; // entry 1 -> relative LBA 0 == ext start == itself
    data[o + 4] = 0x05;
    data[o + 8..o + 12].copy_from_slice(&0u32.to_le_bytes());
    data[o + 12..o + 16].copy_from_slice(&100u32.to_le_bytes());
    let s = MemSource::new(data);
    // Must return rather than hang.
    let root = MbrProbe.open(&s, 0).root();
    assert_eq!(root.entries.len(), 4);
    // A relative LBA of zero terminates the chain.
    assert_eq!(root.entries[0].logicals.len(), 1);
}

#[test]
fn garbage_never_panics() {
    for seed in [0u8, 1, 0x55, 0xAA, 0xFF] {
        let s = MemSource::new(vec![seed; 4096]);
        let _ = MbrProbe.probe(&s, 0);
        let _ = MbrProbe.open(&s, 0).root();
    }
}

#[test]
fn the_types_we_actually_meet_are_named() {
    for (b, want) in [
        (0x0Cu64, "FAT32 LBA"),
        (0x07, "NTFS / exFAT / HPFS"),
        (0xEE, "GPT protective"),
        (0x83, "Linux"),
    ] {
        assert_eq!(lookup_type(b).unwrap().label, want);
    }
}

#[test]
fn extended_types_are_recognised() {
    assert!(is_extended(0x05));
    assert!(is_extended(0x0F));
    assert!(is_extended(0x85));
    assert!(!is_extended(0x83));
}

#[test]
fn the_table_has_no_duplicate_values() {
    let mut v: Vec<u64> = mbr_types().iter().map(|e| e.value).collect();
    v.sort_unstable();
    let n = v.len();
    v.dedup();
    assert_eq!(v.len(), n, "duplicate type byte");
}

#[test]
fn a_status_byte_is_named_or_not() {
    assert_eq!(lookup_status(0x80).map(|n| n.value), Some(0x80));
    assert!(lookup_status(0x12).is_none());
    assert!(lookup_type(0x100).is_none());
}

#[test]
fn each_finding_about_an_entry_has_an_input() {
    let s = src_with(
        synth_mbr(&[(0x12, 0x83, 0, 100), (0x00, 0x83, 5, 0), (0x00, 0xEE, 1, 10)]),
        1024 * 1024,
    );
    let root = MbrProbe.open(&s, 0).root();
    let f = |i: usize| root.entries[i].slot.findings.clone();
    assert!(f(0).contains(&Finding::OddStatus { status: 0x12 }));
    assert!(f(1).contains(&Finding::ZeroLength));
    assert!(f(2).contains(&Finding::ProtectiveEntry));
    assert!(says(&f(0), "status 0x12 is neither 0x00 nor 0x80"));
    assert_eq!(root.finding, None);
}

#[test]
fn a_made_sector_reads_back() {
    let sector = synth_mbr(&[(0x80, 0x83, 0x0102_0304, 0x0506_0708), (0x00, 0x0C, 7, 8)]);
    let e = EntryFacts::from_bytes(&sector[0x1BE..0x1CE]);
    assert_eq!(
        (e.status, e.part_type, e.lba_first, e.num_sectors),
        (0x80, 0x83, 0x0102_0304, 0x0506_0708)
    );
    assert_eq!(e.end_lba(), Some(0x0102_0304 + 0x0506_0708));
    assert!(EntryFacts::from_bytes(&sector[0x1DE..0x1EE]).is_empty());
    assert_eq!((sector[0x1FE], sector[0x1FF]), (0x55, 0xAA));
}

#[test]
fn overlaps_come_in_pairs() {
    let e = |first: u64, n: u64| EntryFacts {
        status: 0,
        part_type: 0x83,
        lba_first: first,
        num_sectors: n,
    };
    assert_eq!(find_overlaps(&[e(10, 10), e(20, 10), e(15, 10)]), vec![(0, 2), (2, 0), (1, 2), (2, 1)]);
    assert_eq!(find_overlaps(&[e(10, 10), e(20, 10)]), vec![]);
}

#[test]
fn a_chain_of_logical_partitions_is_followed() {
    let mut data = vec![0u8; 64 * 1024];
    for (lba, next) in [(10usize, 20u32), (30, 0)] {
        let at = lba * 512;
        data[at + 0x1FE] = 0x55;
        data[at + 0x1FF] = 0xAA;
        let o = at + 0x1BE;
        data[o + 4] = 0x83;
        data[o + 8..o + 12].copy_from_slice(&1u32.to_le_bytes());
        data[o + 12..o + 16].copy_from_slice(&5u32.to_le_bytes());
        if next != 0 {
            data[o + 20] = 0x05;
            data[o + 24..o + 28].copy_from_slice(&next.to_le_bytes());
            data[o + 28..o + 32].copy_from_slice(&6u32.to_le_bytes());
        }
    }
    let s = MemSource::new(data);
    let links = walk_ebr_chain(&s, 10);
    assert_eq!(links.len(), 2);
    let first = links[0].ebr.as_ref().unwrap();
    let second = links[1].ebr.as_ref().unwrap();
    assert_eq!((first.lba, second.lba), (10, 30));
    assert!(says(&first.slots[0].findings, "relative LBA 1 from EBR at LBA 10 = absolute LBA 11"));
    assert!(says(&second.slots[0].findings, "relative LBA 1 from EBR at LBA 30 = absolute LBA 31"));
}

#[test]
fn a_chain_that_comes_back_is_cut_where_it_does() {
    let mut data = vec![0u8; 64 * 1024];
    for lba in [10usize, 30] {
        let o = lba * 512 + 0x1BE;
        data[o + 20] = 0x05;
        data[o + 24..o + 28].copy_from_slice(&20u32.to_le_bytes());
        data[o + 28..o + 32].copy_from_slice(&6u32.to_le_bytes());
    }
    let s = MemSource::new(data);
    let links = walk_ebr_chain(&s, 10);
    assert_eq!(links.len(), 3);
    assert_eq!(links[2].label, "chain loops");
    assert_eq!(links[2].finding, Some(Finding::ChainLoops { lba: 30 }));
}

#[test]
fn an_extended_boot_record_off_the_device_ends_the_chain() {
    let s = MemSource::new(vec![0u8; 4096]);
    let links = walk_ebr_chain(&s, 100);
    assert_eq!(links.len(), 1);
    assert_eq!(links[0].finding, Some(Finding::EbrPastDevice));
    assert!(links[0].ebr.is_none());
}
