use blktamper_formats::exfat::{synth_entry_set, synth_volume, ExfatReader, Geometry};
use blktamper_formats::extent::Span;
use blktamper_formats::scrub::{ByteEdit, Fill, ScrubMode, Selection, WhyNot, ZeroRefusal};
use blktamper_formats::source::MemSource;

/// A made volume, and where the records that were asked for start in its root directory.
fn volume(entries: &[u8]) -> (Vec<u8>, u64) {
    let img = synth_volume(entries);
    let (geo, _) = Geometry::from_boot(&img[..512], 0, 512);
    let root = geo.cluster_byte(geo.first_cluster_of_root).expect("root cluster");
    (img, root + 96)
}

/// A minimal deleted entry set: 0x05 primary, 0x40 stream, 0x41 name.
fn deleted_set(first_cluster: u32, len: u64) -> Vec<u8> {
    let mut v = vec![0u8; 96];
    v[0] = 0x05;
    v[1] = 2; // secondary_count
    v[32] = 0x40;
    v[32 + 0x03] = 6; // name_length
    v[32 + 0x14..32 + 0x18].copy_from_slice(&first_cluster.to_le_bytes());
    v[32 + 0x18..32 + 0x20].copy_from_slice(&len.to_le_bytes());
    v[64] = 0x41;
    for (i, u) in "SECRET".encode_utf16().enumerate() {
        v[64 + 2 + i * 2..64 + 4 + i * 2].copy_from_slice(&u.to_le_bytes());
    }
    v
}

fn live_entry() -> Vec<u8> {
    let mut v = vec![0u8; 32];
    v[0] = 0x85;
    v
}

fn set_node(root: u64, count: u64) -> Selection {
    Selection {
        label: "SECRET (deleted)".to_string(),
        spans: (0..count).map(|i| Span::bytes(root + i * 32, 32)).collect(),
    }
}

/// The root directory, whose fourth record lies at `root`.
fn directory(root: u64) -> Selection {
    Selection { label: "root directory".to_string(), spans: vec![Span::bytes(root - 96, 512)] }
}

/// The image once the edits are written to it.
fn carry_out(img: &[u8], edits: &[ByteEdit]) -> Vec<u8> {
    let mut after = img.to_vec();
    for e in edits {
        let at = e.offset as usize;
        assert_eq!(&after[at..at + 32], &e.old[..], "an edit finds what it says");
        after[at..at + 32].copy_from_slice(&e.new);
    }
    after
}

#[test]
fn neutral_keeps_each_records_own_marker() {
    let (img, root) = volume(&deleted_set(7, 1234));
    let s = MemSource::new(img);
    let r = ExfatReader::new(&s, 0);
    let p = r.scrub_plan(&set_node(root, 3), ScrubMode::Record(Fill::Neutral)).expect("a plan");
    assert_eq!(p.records(), 3);
    // exFAT uses a different marker per record kind; neutral must not normalise.
    assert_eq!(p.edits[0].new[0], 0x05);
    assert_eq!(p.edits[1].new[0], 0x40);
    assert_eq!(p.edits[2].new[0], 0x41);
    for e in &p.edits {
        assert!(e.new[1..].iter().all(|&b| b == 0));
    }
    assert!(p.removes.iter().any(|s| s.contains("1234 bytes")), "{:?}", p.removes);
    assert!(p.removes.iter().any(|s| s.contains("first cluster, 7")), "{:?}", p.removes);
    assert!(p.removes.iter().any(|s| s.contains("1 name record")), "{:?}", p.removes);
}

#[test]
fn zeroing_is_warned_about_not_refused_when_a_live_record_follows() {
    let mut entries = deleted_set(7, 10);
    entries.extend_from_slice(&live_entry());
    let (img, root) = volume(&entries);
    let s = MemSource::new(img);
    let r = ExfatReader::new(&s, 0);
    let p = r.scrub_plan(&set_node(root, 3), ScrubMode::Record(Fill::Zero)).unwrap();
    assert!(!p.edits.is_empty(), "the plan is still offered: warned, not refused");
    match p.zero_refusal.as_ref().expect("the cost must be stated") {
        ZeroRefusal::InUseRecordsFollow { count, first_at } => {
            assert_eq!(*count, 1);
            assert_eq!(*first_at, root + 96);
        }
        other => panic!("wrong refusal: {other:?}"),
    }
}

#[test]
fn zero_is_allowed_when_only_free_space_follows() {
    let (img, root) = volume(&deleted_set(7, 10));
    let s = MemSource::new(img);
    let r = ExfatReader::new(&s, 0);
    let p = r.scrub_plan(&set_node(root, 3), ScrubMode::Record(Fill::Zero)).unwrap();
    assert!(p.zero_is_free(), "{:?}", p.zero_refusal);
    for e in &p.edits {
        assert!(e.new.iter().all(|&b| b == 0));
    }
}

#[test]
fn a_live_set_has_no_plan() {
    let mut entries = live_entry();
    entries.extend_from_slice(&[0u8; 64]);
    let (img, root) = volume(&entries);
    let s = MemSource::new(img);
    let r = ExfatReader::new(&s, 0);
    assert!(r.scrub_plan(&set_node(root, 1), ScrubMode::Record(Fill::Neutral)).is_none());
}

#[test]
fn a_mixed_selection_has_no_plan() {
    // A deleted set followed by a live entry, selected together: refusing is right,
    // because scrubbing the live one loses a file.
    let mut entries = deleted_set(7, 10);
    entries.extend_from_slice(&live_entry());
    let (img, root) = volume(&entries);
    let s = MemSource::new(img);
    let r = ExfatReader::new(&s, 0);
    assert!(r.scrub_plan(&set_node(root, 4), ScrubMode::Record(Fill::Neutral)).is_none());
}

#[test]
fn a_partial_record_selection_has_no_plan() {
    let (img, root) = volume(&deleted_set(7, 10));
    let s = MemSource::new(img);
    let r = ExfatReader::new(&s, 0);
    let field =
        Selection { label: "file_name".to_string(), spans: vec![Span::bytes(root + 64 + 2, 30)] };
    assert!(r.scrub_plan(&field, ScrubMode::Record(Fill::Neutral)).is_none());
}

#[test]
fn a_contiguous_file_says_so_in_the_warning() {
    let mut entries = deleted_set(7, 4096);
    entries[32 + 0x01] |= 0x02; // NoFatChain
    let (img, root) = volume(&entries);
    let s = MemSource::new(img);
    let r = ExfatReader::new(&s, 0);
    let p = r.scrub_plan(&set_node(root, 3), ScrubMode::Record(Fill::Neutral)).unwrap();
    assert!(
        p.warnings.iter().any(|w| w.message.contains("NoFatChain")),
        "a contiguous file's data is fully locatable and the warning must say so"
    );
}

// ------------------------------------------------------------------- own scenarios

#[test]
fn a_directory_is_swept_and_compacted() {
    let mut entries = deleted_set(7, 10);
    entries.extend_from_slice(&live_entry());
    let (img, root) = volume(&entries);
    let s = MemSource::new(img);
    let r = ExfatReader::new(&s, 0);
    let p = r.scrub_plan(&directory(root), ScrubMode::Sweep).unwrap();
    assert_eq!(p.records(), 3);
    assert_eq!(p.relocated, 0);
    assert_eq!(p.edits[0].offset, root);
    assert_eq!(p.edits[0].new[0], 0x05);
    assert_eq!(p.edits[1].new[0], 0x40);
    assert_eq!(p.edits[0].reason, "sweep directory");
    assert_eq!(p.affected, vec!["0x05 record", "0x40 record", "SECRET"]);
    let p = r.scrub_plan(&directory(root), ScrubMode::Compact).unwrap();
    assert_eq!(p.relocated, 1);
    let moved = p.edits.iter().find(|e| e.offset == root).unwrap();
    assert_eq!(moved.new, live_entry());
}

#[test]
fn a_whole_deleted_set_is_compacted_away() {
    let (img, root) = volume(&synth_entry_set("HELLO.TXT", 5, 512, true, true));
    assert_eq!(root, 16480);
    let s = MemSource::new(img);
    let r = ExfatReader::new(&s, 0);
    let p = r.scrub_plan(&directory(root), ScrubMode::Compact).unwrap();
    let at: Vec<u64> = p.edits.iter().map(|e| e.offset).collect();
    assert_eq!(at, vec![16480, 16512, 16544]);
    for e in &p.edits {
        assert_eq!(e.new, vec![0u8; 32]);
    }
    assert_eq!(p.relocated, 0);
    assert_eq!(p.affected.len(), 3);
}

#[test]
fn carrying_out_a_scrub_leaves_nothing_to_do() {
    let mut entries = deleted_set(7, 10);
    entries.extend_from_slice(&synth_entry_set("KEEP.TXT", 9, 512, true, false));
    entries.extend_from_slice(&deleted_set(8, 20));
    entries.extend_from_slice(&live_entry());
    let (img, root) = volume(&entries);
    for mode in [ScrubMode::Sweep, ScrubMode::Compact] {
        let s = MemSource::new(img.clone());
        let p = ExfatReader::new(&s, 0).scrub_plan(&directory(root), mode).unwrap();
        for (i, a) in p.edits.iter().enumerate() {
            assert!(p.edits[i + 1..].iter().all(|b| b.offset.abs_diff(a.offset) >= 32));
        }
        let after = carry_out(&img, &p.edits);
        if mode == ScrubMode::Compact {
            let o = root as usize;
            assert_eq!(after[o..o + 96], synth_entry_set("KEEP.TXT", 9, 512, true, false)[..]);
            assert_eq!(after[o + 96..o + 128], live_entry()[..]);
            assert!(after[o + 128..o + 416].iter().all(|&b| b == 0));
        }
        let s = MemSource::new(after);
        assert!(ExfatReader::new(&s, 0).scrub_plan(&directory(root), mode).is_none());
    }
}

#[test]
fn the_next_cluster_of_a_directory_is_where_its_chain_leads() {
    // The root directory goes on in cluster 9, and cluster 3 is nobody's.
    let (mut img, root) = volume(&[]);
    let link = |img: &mut Vec<u8>, cluster: usize, next: u32| {
        let at = 12288 + 4 * cluster;
        img[at..at + 4].copy_from_slice(&next.to_le_bytes());
    };
    link(&mut img, 2, 9);
    link(&mut img, 9, 0xFFFF_FFFF);
    let last = root as usize - 96 + 480;
    img[last] = 0x05;
    img[last + 1] = 9;
    let next = 16384 + 7 * 512;
    img[next..next + 32].copy_from_slice(&live_entry());
    let record =
        Selection { label: "last".to_string(), spans: vec![Span::bytes(last as u64, 32)] };
    let s = MemSource::new(img.clone());
    let p = ExfatReader::new(&s, 0).scrub_plan(&record, ScrubMode::Record(Fill::Zero)).unwrap();
    assert_eq!(
        p.zero_refusal,
        Some(ZeroRefusal::InUseRecordsFollow { count: 1, first_at: next as u64 })
    );
    // And where the chain ends there, what lies behind it is not asked.
    link(&mut img, 2, 0xFFFF_FFFF);
    img[16384 + 512] = 0x85;
    let s = MemSource::new(img);
    let p = ExfatReader::new(&s, 0).scrub_plan(&record, ScrubMode::Record(Fill::Zero)).unwrap();
    assert!(p.zero_is_free(), "{:?}", p.zero_refusal);
}

#[test]
fn a_type_that_no_record_has_makes_no_directory() {
    // A type code of zero is reserved, except in the two types that are named.
    for (t, like) in
        [(0x20u8, true), (0x40, true), (0xA0, true), (0xC0, true), (0x60, false), (0x80, false), (0xE0, false)]
    {
        let mut entries = deleted_set(7, 10);
        entries.extend_from_slice(&[t; 32]);
        let (img, root) = volume(&entries);
        let s = MemSource::new(img);
        let r = ExfatReader::new(&s, 0);
        assert_eq!(r.scrub_plan(&directory(root), ScrubMode::Sweep).is_some(), like, "{t:#x}");
    }
}

#[test]
fn a_record_outside_the_heap_cannot_be_checked() {
    let (mut img, _) = volume(&[]);
    img[1024] = 0x05;
    img[1025] = 9;
    let s = MemSource::new(img);
    let r = ExfatReader::new(&s, 0);
    let stray = Selection { label: "stray".to_string(), spans: vec![Span::bytes(1024, 32)] };
    let p = r.scrub_plan(&stray, ScrubMode::Record(Fill::Zero)).unwrap();
    assert_eq!(p.zero_refusal, Some(ZeroRefusal::CouldNotVerify(WhyNot::OutsideHeap)));
}
