use blktamper_formats::gpt::array::{GptEntry, MAX_ENTRIES};
use blktamper_formats::gpt::attributes::{bit_is_set, entry_attributes};
use blktamper_formats::gpt::desc::{gpt_entry, gpt_header};
use blktamper_formats::gpt::entry::{EntryFacts, MAX_OVERLAP_DIAGS};
use blktamper_formats::gpt::finding::Finding;
use blktamper_formats::gpt::guids;
use blktamper_formats::gpt::header::Header;
use blktamper_formats::gpt::reader::Gpt;
use blktamper_formats::gpt::{
    diff_headers, guid, is_unused, synth_gpt, type_label, GptProbe, MIRRORED_FIELDS,
};
use blktamper_formats::source::{BlockSource, Device, MemSource, ReadOutcome};
use blktamper_formats::status::Status;

const DEVICE_LBAS: u64 = 2048;

fn good() -> Vec<u8> {
    synth_gpt(
        DEVICE_LBAS,
        &[
            (guids::EFI_SYSTEM, 40, 1023, "ESP"),
            (guids::LINUX_FILESYSTEM, 1024, 2000, "root"),
        ],
    )
}

fn entries_of<S: BlockSource>(root: &Gpt, src: &S) -> Vec<GptEntry> {
    match &root.entries.array {
        Some(a) => a.expand(src),
        // An array whose location could not be resolved is a legitimate outcome on a
        // hostile image, but it has to say why rather than show nothing.
        None => {
            assert!(root.entries.finding.is_some(), "an array with no entries must explain itself");
            Vec::new()
        }
    }
}

fn says(findings: &[Finding], text: &str) -> bool {
    findings.iter().any(|f| f.message().contains(text))
}

fn number(h: &Header, name: &str) -> Option<u64> {
    h.record.fields.iter().find(|f| f.name == name).and_then(|f| f.number)
}

#[test]
fn the_header_tiles_ninety_two_bytes_with_fourteen_fields() {
    let d = gpt_header();
    assert_eq!(d.fields.len(), 14);
    assert_eq!(d.size, 92);
    let end = d.fields.iter().fold(0, |at, f| {
        assert_eq!(f.off, at, "gap before {}", f.name);
        at + f.width
    });
    assert_eq!(end, 92);
}

#[test]
fn the_entry_tiles_one_hundred_and_twenty_eight_bytes_with_six_fields() {
    let d = gpt_entry();
    assert_eq!(d.fields.len(), 6);
    assert_eq!(d.size, 128);
    let end = d.fields.iter().fold(0, |at, f| {
        assert_eq!(f.off, at, "gap before {}", f.name);
        at + f.width
    });
    assert_eq!(end, 128);
}

#[test]
fn every_attribute_bit_is_described_exactly_once() {
    let all = entry_attributes();
    let mut bits: Vec<u32> = all.iter().map(|b| b.bit).collect();
    bits.sort_unstable();
    assert_eq!(bits, (0..64).collect::<Vec<u32>>());
    // 3..=47 are the reserved run; nothing else is reserved.
    for b in &all {
        assert_eq!(b.reserved, (3..=47).contains(&b.bit), "bit {}", b.bit);
    }
}

#[test]
fn mixed_endian_matches_the_bytes_sgdisk_wrote() {
    assert_eq!(
        guids::EFI_SYSTEM,
        [
            0x28, 0x73, 0x2A, 0xC1, 0x1F, 0xF8, 0xD2, 0x11, 0xBA, 0x4B, 0x00, 0xA0, 0xC9, 0x3E,
            0xC9, 0x3B
        ]
    );
    assert_eq!(guids::format_guid(&guids::EFI_SYSTEM), "c12a7328-f81f-11d2-ba4b-00a0c93ec93b");
}

#[test]
fn the_table_is_reachable_by_guid_value() {
    assert_eq!(type_label(&guids::MS_BASIC_DATA), Some("Microsoft basic data"));
    assert_eq!(type_label(&guids::LINUX_LUKS), Some("Linux LUKS"));
    assert_eq!(type_label(&[0xAB; 16]), None);
}

#[test]
fn the_table_has_no_duplicate_guids() {
    let mut v: Vec<[u8; 16]> = guids::partition_types().iter().map(|e| e.guid()).collect();
    v.sort_unstable();
    let n = v.len();
    v.dedup();
    assert_eq!(v.len(), n, "duplicate GUID");
    assert!(n >= 40, "the table is meant to cover at least 40 types, has {n}");
}

#[test]
fn every_entry_is_sixteen_bytes() {
    for e in guids::partition_types() {
        assert_eq!(e.guid().len(), 16, "{} is not 16 bytes", e.label);
        assert!(!e.doc.trim().is_empty(), "{} has no doc", e.label);
    }
}

#[test]
fn unused_is_all_zero_and_nothing_else_is() {
    assert!(is_unused(&guids::UNUSED));
    assert!(!is_unused(&guids::EFI_SYSTEM));
}

#[test]
fn a_consistent_table_scores_high_and_reports_clean() {
    let src = MemSource::new(good());
    assert_eq!(GptProbe.probe(&src, 0), 100);
    let root = GptProbe.open(&src, 0).root();
    assert_eq!(root.primary.status(), Status::Clean, "{:?}", root.primary.findings);
    assert!(root.primary.crc.unwrap().matches());
    assert!(root.primary_plan.crc.unwrap().matches());
    assert!(root.primary_plan.findings.is_empty());
    assert!(diff_headers(&root.primary, &root.backup).is_empty());
}

#[test]
fn the_entry_array_is_lazy_and_still_lists_every_slot() {
    let src = MemSource::new(good());
    let root = GptProbe.open(&src, 0).root();
    assert_eq!(root.entries.array.unwrap().hint_len(), 128);
    let kids = entries_of(&root, &src);
    assert_eq!(kids.len(), 128, "every slot gets a row, used or not");
    assert!(kids[0].label.contains("EFI System"));
    assert_eq!(kids[2].label, "[2] --");
}

#[test]
fn a_corrupt_header_crc_is_shown_and_nothing_is_refused() {
    let mut data = good();
    data[512 + 16] ^= 0xFF;
    let src = MemSource::new(data);
    // Still obviously a GPT: the CRC is deliberately not part of the score.
    assert_eq!(GptProbe.probe(&src, 0), 100);
    let root = GptProbe.open(&src, 0).root();
    let crc = root.primary.crc.unwrap();
    assert!(!crc.matches());
    let bad = Finding::HeaderCrc { stored: crc.stored, computed: crc.computed };
    assert!(root.primary.findings.contains(&bad));
    assert_eq!(bad.field(), Some("header_crc32"));
    assert_eq!(bad.status(), Status::Bad);
    // and every other field is still there with its value
    assert_eq!(number(&root.primary, "num_entries"), Some(128));
}

#[test]
fn a_cleared_type_guid_over_an_intact_name_is_surfaced() {
    // The slot reads as free, the evidence is still there.
    let mut data = good();
    let e0 = 2 * 512;
    data[e0..e0 + 16].fill(0);
    let src = MemSource::new(data);
    let root = GptProbe.open(&src, 0).root();
    let kids = entries_of(&root, &src);
    assert_eq!(kids[0].label, "[0] --");
    assert!(says(&kids[0].findings, "unused but"), "{:?}", kids[0].findings);
    assert!(kids[0].findings[0].message().contains("the name"));
}

#[test]
fn an_absurd_entry_count_is_clamped_rather_than_allocated() {
    let mut data = good();
    data[512 + 0x50..512 + 0x54].copy_from_slice(&u32::MAX.to_le_bytes());
    let src = MemSource::new(data);
    let root = GptProbe.open(&src, 0).root();
    let n: Vec<&Finding> = root
        .primary_plan
        .findings
        .iter()
        .filter(|f| f.field() == Some("num_entries"))
        .collect();
    assert!(n.iter().any(|f| f.status() == Status::Bad));
    assert!(n.iter().any(|f| f.message().contains("only the first")));
    assert_eq!(root.entries.array.unwrap().hint_len(), MAX_ENTRIES as u64);
}

#[test]
fn an_overflowing_entry_geometry_reports_instead_of_multiplying() {
    let mut data = good();
    data[512 + 0x50..512 + 0x54].copy_from_slice(&u32::MAX.to_le_bytes());
    data[512 + 0x54..512 + 0x58].copy_from_slice(&u32::MAX.to_le_bytes());
    let src = MemSource::new(data);
    let root = GptProbe.open(&src, 0).root();
    assert!(root.primary_plan.crc.is_none());
    assert!(root.primary_plan.findings.iter().any(|f| f.field() == Some("entries_crc32")
        && (f.message().contains("unverified") || f.message().contains("overflow"))));
}

#[test]
fn a_swapped_backup_that_does_not_point_back_is_a_finding() {
    let mut data = good();
    let boff = (DEVICE_LBAS as usize - 1) * 512;
    data[boff + 0x20..boff + 0x28].copy_from_slice(&999u64.to_le_bytes());
    let src = MemSource::new(data);
    let root = GptProbe.open(&src, 0).root();
    let found = &root.compare.findings;
    assert!(
        says(found, "does not") || says(found, "but the primary lives"),
        "{:?}",
        found
    );
}

#[test]
fn a_disk_guid_that_differs_between_the_copies_is_a_real_difference() {
    let mut data = good();
    let boff = (DEVICE_LBAS as usize - 1) * 512;
    data[boff + 0x38] ^= 0xFF;
    let src = MemSource::new(data);
    let root = GptProbe.open(&src, 0).root();
    let d = diff_headers(&root.primary, &root.backup);
    assert_eq!(d.len(), 1, "{d:?}");
    assert_eq!(d[0].field, "disk_guid");

    // Editing the backup also broke its own CRC, which is what says which copy to
    // believe.
    assert!(
        says(&root.compare.findings, "the primary passes its own CRC"),
        "{:?}",
        root.compare.findings
    );
}

#[test]
fn mod_overlapping_partitions_are_flagged_on_both() {
    let src = MemSource::new(synth_gpt(
        DEVICE_LBAS,
        &[
            (guids::LINUX_FILESYSTEM, 40, 1023, "a"),
            (guids::LINUX_FILESYSTEM, 1000, 2000, "b"),
        ],
    ));
    let root = GptProbe.open(&src, 0).root();
    let kids = entries_of(&root, &src);
    assert!(says(&kids[0].findings, "overlaps entry 1"));
    assert!(says(&kids[1].findings, "overlaps entry 0"));
}

#[test]
fn a_missing_protective_mbr_is_noted() {
    let mut data = good();
    data[0x1FE] = 0;
    let src = MemSource::new(data);
    let root = GptProbe.open(&src, 0).root();
    assert!(says(&root.findings, "no protective MBR"));
}

#[test]
fn a_hybrid_mbr_is_a_finding_not_an_error() {
    let mut data = good();
    let o = 0x1BE + 16;
    data[o + 4] = 0x83;
    data[o + 8..o + 12].copy_from_slice(&2048u32.to_le_bytes());
    data[o + 12..o + 16].copy_from_slice(&1024u32.to_le_bytes());
    let src = MemSource::new(data);
    let root = GptProbe.open(&src, 0).root();
    assert!(says(&root.findings, "hybrid MBR"));
}

#[test]
fn a_wiped_primary_with_an_intact_backup_says_so() {
    let mut data = good();
    data[512..1024].fill(0);
    let src = MemSource::new(data);
    assert_eq!(GptProbe.probe(&src, 0), 0, "no signature, no claim");
    let root = GptProbe.open(&src, 0).root();
    assert!(says(&root.findings, "backup at LBA"), "{:?}", root.findings);
}

#[test]
fn a_reserved_attribute_bit_is_a_warning() {
    let mut data = good();
    let attrs = 2 * 512 + 0x30;
    data[attrs + 1] = 0x01; // bit 8, inside the reserved run
    let src = MemSource::new(data);
    let root = GptProbe.open(&src, 0).root();
    let kids = entries_of(&root, &src);
    assert_eq!(kids[0].attribute_status(), Status::Warn);
    assert!(bit_is_set(kids[0].facts.attributes, 8));
    assert_eq!(kids[1].attribute_status(), Status::Clean);
}

#[test]
fn the_header_block_tail_is_shown_and_checked() {
    let mut data = good();
    data[512 + 200] = 0x41;
    let src = MemSource::new(data);
    let root = GptProbe.open(&src, 0).root();
    let pad = root.primary.padding.unwrap();
    assert_eq!(pad.span.len, 512 - 92);
    assert!(says(&pad.findings, "not zero"));
}

#[test]
fn garbage_and_zeros_never_panic_and_never_claim_a_gpt() {
    for seed in [0u8, 1, 0x55, 0xAA, 0xEF, 0xFF] {
        let src = MemSource::new(vec![seed; 64 * 1024]);
        assert_eq!(GptProbe.probe(&src, 0), 0);
        let root = GptProbe.open(&src, 0).root();
        assert_eq!(root.primary.record.fields.len(), 14);
        let _ = entries_of(&root, &src);
    }
}

#[test]
fn a_truncated_image_produces_unreadable_not_zeros() {
    let mut data = good();
    data.truncate(3 * 512);
    let src = MemSource::new(data);
    let root = GptProbe.open(&src, 0).root();
    // The backup lives past the end now; it must not read as a header of zeros.
    assert!(root.backup.status().is_anomaly());
    assert_ne!(number(&root.backup, "signature"), Some(0x5452_4150_2049_4645));
}

#[test]
fn a_tampered_entry_turns_the_array_crc_red() {
    let mut data = good();
    data[2 * 512 + 0x38] ^= 0x20; // one letter of entry 0's name
    let src = MemSource::new(data);
    let root = GptProbe.open(&src, 0).root();
    let crc = root.primary_plan.crc.unwrap();
    assert!(!crc.matches());
    let f = Finding::EntriesCrc { stored: crc.stored, computed: crc.computed };
    assert!(root.primary_plan.findings.contains(&f));
    assert_eq!(f.field(), Some("entries_crc32"));
    assert_eq!(f.status(), Status::Bad);
    assert!(f.message().contains("stored") && f.message().contains("computed"));
    // The backup array is untouched, so the two copies must now disagree.
    assert!(
        says(&root.compare.findings, "entry arrays differ"),
        "{:?}",
        root.compare.findings
    );
}

#[test]
fn a_table_where_everything_overlaps_is_one_finding_per_entry_not_thousands() {
    let n = MAX_ENTRIES as u32;
    let ss = 512usize;
    let mut data = vec![0u8; 8 * 1024 * 1024];
    data[ss..ss + 8].copy_from_slice(b"EFI PART");
    data[ss + 0x0C..ss + 0x10].copy_from_slice(&92u32.to_le_bytes());
    data[ss + 0x18..ss + 0x20].copy_from_slice(&1u64.to_le_bytes());
    data[ss + 0x48..ss + 0x50].copy_from_slice(&2u64.to_le_bytes());
    data[ss + 0x50..ss + 0x54].copy_from_slice(&n.to_le_bytes());
    data[ss + 0x54..ss + 0x58].copy_from_slice(&128u32.to_le_bytes());
    for i in 0..n as usize {
        let o = 2 * ss + i * 128;
        data[o..o + 16].copy_from_slice(&guids::LINUX_FILESYSTEM);
        data[o + 32..o + 40].copy_from_slice(&100u64.to_le_bytes());
        data[o + 40..o + 48].copy_from_slice(&200u64.to_le_bytes());
    }
    let src = MemSource::new(data);
    let root = GptProbe.open(&src, 0).root();
    let kids = entries_of(&root, &src);
    assert_eq!(kids.len(), n as usize);
    // Every entry still says it overlaps, and says how many it did not name.
    let named =
        kids[0].findings.iter().filter(|d| d.message().starts_with("overlaps entry")).count();
    assert_eq!(named as u64, MAX_OVERLAP_DIAGS as u64, "{:?}", kids[0].findings);
    assert!(says(&kids[0].findings, "overlaps entry 1"));
    assert!(says(&kids[0].findings, "further entries overlap"), "{:?}", kids[0].findings);
    assert_eq!(kids[0].status(), Status::Bad);
}

#[test]
fn a_region_near_the_top_of_the_address_space_does_not_panic() {
    for base in [1u64 << 61, (1u64 << 61) + 512, u64::MAX - 4096, u64::MAX] {
        let src = MemSource::new(vec![0u8; 64 * 1024]);
        let _ = GptProbe.probe(&src, base);
        let root = GptProbe.open(&src, base).root();
        assert_eq!(root.primary.record.fields.len(), 14);
        let _ = entries_of(&root, &src);
    }
}

#[derive(Debug)]
struct Huge(u64);

impl BlockSource for Huge {
    fn device(&self) -> Device {
        unreachable!()
    }

    fn len(&self) -> u64 {
        self.0
    }

    fn logical_sector_size(&self) -> u32 {
        512
    }

    fn read_vec(&self, _at: u64, n: u64) -> (Vec<u8>, ReadOutcome) {
        (vec![0; n as usize], ReadOutcome::Full)
    }
}

#[test]
fn a_device_that_claims_an_exabyte_does_not_panic() {
    for len in [1u64 << 62, u64::MAX] {
        let src = Huge(len);
        let _ = GptProbe.probe(&src, 0);
        let root = GptProbe.open(&src, 0).root();
        assert_eq!(root.backup.record.fields.len(), 14);
    }
}

#[test]
fn every_field_of_every_entry_survives_hostile_bytes() {
    // Whatever the bytes are, the rows have the same shape.
    for seed in 0u8..=255 {
        let mut data = good();
        data[2 * 512..3 * 512].fill(seed);
        let src = MemSource::new(data);
        let root = GptProbe.open(&src, 0).root();
        let kids = entries_of(&root, &src);
        assert_eq!(kids.len(), 128);
        for k in kids.iter().take(4) {
            assert!(k.record.fields.iter().any(|f| f.name == "type_guid"));
            assert!(k.record.fields.iter().any(|f| f.name == "name"));
        }
    }
}

#[test]
fn a_guid_is_mixed_endian() {
    let g = guid(0x0011_2233, 0x4455, 0x6677, 0x8899, 0xAABB_CCDD_EEFF);
    assert_eq!(
        g,
        [
            0x33, 0x22, 0x11, 0x00, 0x55, 0x44, 0x77, 0x66, 0x88, 0x99, 0xAA, 0xBB, 0xCC, 0xDD,
            0xEE, 0xFF
        ]
    );
    assert_eq!(guids::format_guid(&g), "00112233-4455-6677-8899-aabbccddeeff");
}

#[test]
fn a_name_outside_the_basic_plane_reads_back() {
    let src = MemSource::new(synth_gpt(
        DEVICE_LBAS,
        &[(guids::LINUX_FILESYSTEM, 40, 50, "d\u{1F4BE}\u{E9}")],
    ));
    let root = GptProbe.open(&src, 0).root();
    let kids = entries_of(&root, &src);
    assert_eq!(kids[0].facts.name, "d\u{1F4BE}\u{E9}");
    assert!(kids[0].label.contains("d\u{1F4BE}\u{E9}"));
}

#[test]
fn a_made_disk_holds_two_agreeing_copies() {
    let src = MemSource::new(good());
    let root = GptProbe.open(&src, 0).root();
    assert!(root.backup.crc.unwrap().matches());
    assert!(root.backup_plan.crc.unwrap().matches());
    assert!(root.compare.findings.contains(&Finding::HeadersAgree));
    assert!(root.compare.findings.contains(&Finding::ArraysIdentical));
    assert_eq!(root.findings, vec![Finding::ProtectiveFine { sectors: 2047 }]);
    assert!(!root.deep_status().is_anomaly());
    assert_eq!(number(&root.primary, "first_usable_lba"), Some(34));
    assert_eq!(number(&root.backup, "my_lba"), Some(2047));
}

#[test]
fn a_header_in_the_wrong_place_says_so() {
    let mut data = good();
    data[512 + 0x18..512 + 0x20].copy_from_slice(&9u64.to_le_bytes());
    let src = MemSource::new(data);
    let root = GptProbe.open(&src, 0).root();
    assert!(root.primary.findings.contains(&Finding::WrongLba { my_lba: 9, at_lba: 1 }));
}

#[test]
fn an_entry_outside_the_usable_range_says_so() {
    let src = MemSource::new(synth_gpt(
        DEVICE_LBAS,
        &[(guids::LINUX_FILESYSTEM, 3, 5, "low"), (guids::LINUX_FILESYSTEM, 60, 50, "backwards")],
    ));
    let root = GptProbe.open(&src, 0).root();
    let kids = entries_of(&root, &src);
    assert!(kids[0].findings.iter().any(|f| matches!(f, Finding::OutsideUsable { first: 3, .. })));
    assert!(kids[1].findings.contains(&Finding::NoSectors { first: 60, last: 50 }));
}

#[test]
fn the_reported_sector_size_says_where_the_header_is() {
    // A table written for 512-byte blocks has no header at byte 4096.
    let src = MemSource::with_sector_size(good(), 4096);
    assert_eq!(src.logical_sector_size(), 4096);
    assert_eq!(GptProbe.probe(&src, 0), 0);
    // The same header moved to byte 4096 is found, and its geometry still counts.
    let mut d = good();
    let header = d[512..1024].to_vec();
    d[4096..4608].copy_from_slice(&header);
    d[4096 + 32..4096 + 40].copy_from_slice(&255u64.to_le_bytes());
    assert_eq!(GptProbe.probe(&MemSource::with_sector_size(d, 4096), 0), 100);
}

#[test]
fn what_an_older_name_left_behind_counts_as_a_leftover() {
    assert_eq!(EntryFacts::from_bytes(&[0u8; 128]).leftovers(), 0);
    for (at, left) in [(0x10usize, 1u8), (0x20, 2), (0x28, 2), (0x38, 4), (0x50, 4), (0x30, 8)] {
        let mut b = [0u8; 128];
        b[at] = 0x41;
        assert_eq!(EntryFacts::from_bytes(&b).leftovers(), left, "byte {at:#x}");
    }
    // A free slot whose name is empty, with the end of an older one behind its NUL.
    let mut data = good();
    let e5 = 2 * 512 + 5 * 128;
    data[e5..e5 + 128].fill(0);
    data[e5 + 0x50] = b'X';
    let src = MemSource::new(data);
    let root = GptProbe.open(&src, 0).root();
    let kids = entries_of(&root, &src);
    assert_eq!(kids[5].label, "[5] --");
    assert_eq!(kids[5].findings, vec![Finding::Survivors { left: 4 }]);
    assert_eq!(kids[5].findings[0].message(), "slot is unused but the name survive");
}

#[test]
fn the_bytes_past_the_defined_entry_are_shown() {
    let mut data = good();
    data[512 + 0x54..512 + 0x58].copy_from_slice(&256u32.to_le_bytes());
    data[1024 + 200] = 0x5A;
    let want = data[1024 + 128..1024 + 256].to_vec();
    let src = MemSource::new(data);
    let root = GptProbe.open(&src, 0).root();
    let kids = entries_of(&root, &src);
    let tail = kids[0].tail.as_ref().expect("a tail");
    assert_eq!((tail.span.at, tail.span.len), (1152, 128));
    assert_eq!(tail.bytes, want);
    assert_eq!(tail.bytes[72], 0x5A);
    let src = MemSource::new(good());
    let root = GptProbe.open(&src, 0).root();
    assert!(entries_of(&root, &src)[0].tail.is_none());
}

#[test]
fn the_mirrored_fields_are_fields_of_the_header() {
    assert_eq!(MIRRORED_FIELDS, ["my_lba", "alternate_lba", "entries_lba", "header_crc32"]);
    let layout = gpt_header();
    let mut at: Vec<u64> = MIRRORED_FIELDS
        .iter()
        .map(|n| layout.fields.iter().find(|f| f.name == *n).unwrap().off)
        .collect();
    at.sort();
    assert_eq!(at, vec![0x10, 0x18, 0x20, 0x48]);
}
