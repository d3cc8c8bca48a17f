use blktamper_formats::extent::Span;
use blktamper_formats::fat::{synth_entry, synth_fat32, FatReader};
use blktamper_formats::scrub::{Fill, ScrubMode, Selection, WhyNot, ZeroRefusal};
use blktamper_formats::source::{FailingSource, MemSource};
use blktamper_formats::status::Status;

/// 2048 sectors, 1 per cluster, 4-sector FATs -> root directory at byte 20480.
const ROOT: u64 = (32 + 2 * 4) * 512;

const DELETED_MARK: u8 = 0xE5;

fn volume() -> Vec<u8> {
    synth_fat32(2048, 1, 4)
}

fn select(label: &str, spans: Vec<Span>) -> Selection {
    Selection { label: label.to_string(), spans }
}

/// One record at directory slot `slot`.
fn record(slot: u64) -> Selection {
    select("?EST.TXT (deleted)", vec![Span::bytes(ROOT + slot * 32, 32)])
}

fn directory() -> Selection {
    select("root directory", vec![Span::bytes(ROOT, 512)])
}

fn delete(img: &mut [u8], slot: u64) {
    img[(ROOT + slot * 32) as usize] = DELETED_MARK;
}

#[test]
fn neutral_keeps_the_marker_and_zeroes_everything_else() {
    let mut img = volume();
    synth_entry(&mut img, (ROOT) as usize, b"SECRET  TXT", 0x20, 5, 1234);
    delete(&mut img, 0);
    let s = MemSource::new(img);
    let r = FatReader::new(&s, 0);

    let p = r
        .scrub_plan(&record(0), ScrubMode::Record(Fill::Neutral))
        .expect("a deleted record has a plan");
    assert_eq!(p.records(), 1);
    let e = &p.edits[0];
    assert_eq!(e.offset, ROOT);
    assert_eq!(e.new[0], DELETED_MARK, "the marker must survive");
    assert!(e.new[1..].iter().all(|&b| b == 0));
    assert!(p.removes.iter().any(|s| s.contains("1234 bytes")), "{:?}", p.removes);
    assert!(p.removes.iter().any(|s| s.contains("first cluster, 5")), "{:?}", p.removes);
}

#[test]
fn scrub_zeroing_is_warned_about_not_refused_when_a_live_record_follows() {
    // A zeroed first byte means "stop scanning", so doing this ahead of a live entry hides
    // it from every driver.
    let mut img = volume();
    synth_entry(&mut img, ROOT as usize, b"GONE    TXT", 0x20, 5, 10);
    synth_entry(&mut img, (ROOT + 32) as usize, b"KEEPME  TXT", 0x20, 6, 20);
    delete(&mut img, 0);
    let s = MemSource::new(img);
    let r = FatReader::new(&s, 0);

    let p = r.scrub_plan(&record(0), ScrubMode::Record(Fill::Zero)).unwrap();
    assert!(!p.zero_is_free(), "a live record follows, so zeroing has a cost");
    assert!(!p.edits.is_empty(), "the plan is still offered: warned, not refused");
    match p.zero_refusal.as_ref().unwrap() {
        ZeroRefusal::InUseRecordsFollow { count, first_at } => {
            assert_eq!(*count, 1);
            assert_eq!(*first_at, ROOT + 32);
        }
        other => panic!("wrong refusal: {other:?}"),
    }
    // ...and the warning is a property of the record, not of the fill chosen.
    let n = r.scrub_plan(&record(0), ScrubMode::Record(Fill::Neutral)).unwrap();
    assert!(!n.zero_is_free());
    assert_eq!(n.edits.len(), 1);
}

#[test]
fn zero_is_allowed_when_nothing_in_use_follows() {
    let mut img = volume();
    synth_entry(&mut img, ROOT as usize, b"LIVE    TXT", 0x20, 5, 10);
    synth_entry(&mut img, (ROOT + 32) as usize, b"GONE    TXT", 0x20, 6, 20);
    delete(&mut img, 1);
    let s = MemSource::new(img);
    let r = FatReader::new(&s, 0);

    let p = r.scrub_plan(&record(1), ScrubMode::Record(Fill::Zero)).unwrap();
    assert!(p.zero_is_free(), "only free records follow: {:?}", p.zero_refusal);
    assert!(p.edits[0].new.iter().all(|&b| b == 0));
}

#[test]
fn deleted_records_following_do_not_block_zeroing() {
    let mut img = volume();
    synth_entry(&mut img, ROOT as usize, b"GONE    TXT", 0x20, 5, 10);
    synth_entry(&mut img, (ROOT + 32) as usize, b"ALSOGONETXT", 0x20, 6, 20);
    delete(&mut img, 0);
    delete(&mut img, 1);
    let s = MemSource::new(img);
    let r = FatReader::new(&s, 0);
    assert!(r.scrub_plan(&record(0), ScrubMode::Record(Fill::Zero)).unwrap().zero_is_free());
}

#[test]
fn a_live_record_has_no_plan() {
    let mut img = volume();
    synth_entry(&mut img, ROOT as usize, b"LIVE    TXT", 0x20, 5, 10);
    let s = MemSource::new(img);
    let r = FatReader::new(&s, 0);
    assert!(r.scrub_plan(&record(0), ScrubMode::Record(Fill::Neutral)).is_none());
}

#[test]
fn selecting_a_field_rather_than_a_record_has_no_plan() {
    // Scrubbing 11 bytes of a name leaves the rest of the record readable.
    let mut img = volume();
    synth_entry(&mut img, ROOT as usize, b"SECRET  TXT", 0x20, 5, 10);
    delete(&mut img, 0);
    let s = MemSource::new(img);
    let r = FatReader::new(&s, 0);
    let field = select("name", vec![Span::bytes(ROOT, 11)]);
    assert!(r.scrub_plan(&field, ScrubMode::Record(Fill::Neutral)).is_none());
}

#[test]
fn a_whole_record_set_is_planned_together() {
    let mut img = volume();
    // two long-filename fragments then the short entry
    for slot in 0..2 {
        let o = (ROOT + slot * 32) as usize;
        img[o] = DELETED_MARK;
        img[o + 0x0B] = 0x0F;
    }
    synth_entry(&mut img, (ROOT + 64) as usize, b"SECRET  TXT", 0x20, 5, 10);
    delete(&mut img, 2);
    let s = MemSource::new(img);
    let r = FatReader::new(&s, 0);

    let set = select(
        "secret.txt (deleted)",
        vec![Span::bytes(ROOT + 64, 32), Span::bytes(ROOT + 32, 32), Span::bytes(ROOT, 32)],
    );
    let p = r.scrub_plan(&set, ScrubMode::Record(Fill::Neutral)).unwrap();
    assert_eq!(p.records(), 3, "half a set would leave the name recoverable");
    // edits come out in on-disk order regardless of the logical order above
    assert_eq!(p.edits[0].offset, ROOT);
    assert_eq!(p.edits[2].offset, ROOT + 64);
    assert!(p.removes.iter().any(|s| s.contains("2 fragment(s)")), "{:?}", p.removes);
}

#[test]
fn an_unreadable_directory_refuses_zeroing_rather_than_guessing() {
    let mut img = volume();
    synth_entry(&mut img, ROOT as usize, b"SECRET  TXT", 0x20, 5, 10);
    delete(&mut img, 0);
    let src = FailingSource { inner: MemSource::new(img), fail_from: ROOT + 32 };
    let r = FatReader::new(&src, 0);
    let p = r.scrub_plan(&record(0), ScrubMode::Record(Fill::Zero));
    // The record itself is readable, so there is a plan; the guarantee is not.
    if let Some(p) = p {
        assert!(matches!(p.zero_refusal, Some(ZeroRefusal::CouldNotVerify(_))));
    }
}

#[test]
fn a_files_cluster_is_never_mistaken_for_a_directory() {
    // A file's first cluster has exactly the shape the directory check looks for: one
    // span, cluster-aligned, one cluster long.
    let mut img = volume();
    let data_at = ROOT as usize + 512; // cluster 3
    // Plausible file contents, not directory records.
    for (i, b) in img[data_at..data_at + 512].iter_mut().enumerate() {
        *b = (i as u8) ^ 0xC3;
    }
    let s = MemSource::new(img);
    let r = FatReader::new(&s, 0);
    let cluster = select("file data", vec![Span::bytes(ROOT + 512, 512)]);
    for mode in [ScrubMode::Compact, ScrubMode::Sweep] {
        assert!(
            r.scrub_plan(&cluster, mode).is_none(),
            "{mode:?} accepted a file's cluster as a directory"
        );
    }
}

#[test]
fn a_real_directory_is_still_accepted() {
    let mut img = volume();
    synth_entry(&mut img, ROOT as usize, b"LIVE    TXT", 0x20, 5, 10);
    synth_entry(&mut img, (ROOT + 32) as usize, b"GONE    TXT", 0x20, 6, 20);
    delete(&mut img, 1);
    let s = MemSource::new(img);
    let r = FatReader::new(&s, 0);
    let p = r.scrub_plan(&directory(), ScrubMode::Compact).expect("a real directory compacts");
    assert_eq!(p.affected.len(), 1, "one deleted record to remove");
    // The live record stays at slot 0, the deleted one is zeroed.
    let zeroed = p.edits.iter().find(|e| e.offset == ROOT + 32).expect("slot 1 changes");
    assert!(zeroed.new.iter().all(|&b| b == 0));
    assert!(
        !p.edits.iter().any(|e| e.offset == ROOT),
        "the live record at slot 0 does not move, so it needs no edit"
    );
}

#[test]
fn compaction_relocates_survivors_past_a_removed_record() {
    let mut img = volume();
    synth_entry(&mut img, ROOT as usize, b"GONE    TXT", 0x20, 5, 10);
    synth_entry(&mut img, (ROOT + 32) as usize, b"KEEPME  TXT", 0x20, 6, 20);
    delete(&mut img, 0);
    let s = MemSource::new(img);
    let r = FatReader::new(&s, 0);
    let p = r.scrub_plan(&directory(), ScrubMode::Compact).unwrap();
    assert_eq!(p.relocated, 1, "the survivor moves up into the gap");
    let moved = p.edits.iter().find(|e| e.offset == ROOT).expect("slot 0 is rewritten");
    assert_eq!(&moved.new[..11], b"KEEPME  TXT");
    let vacated = p.edits.iter().find(|e| e.offset == ROOT + 32).expect("slot 1 is vacated");
    assert!(vacated.new.iter().all(|&b| b == 0), "the vacated slot must be zeroed");
}

#[test]
fn sweep_leaves_an_interleaved_tombstone_but_empties_it() {
    let mut img = volume();
    synth_entry(&mut img, ROOT as usize, b"GONE    TXT", 0x20, 5, 10);
    synth_entry(&mut img, (ROOT + 32) as usize, b"LIVE    TXT", 0x20, 6, 20);
    delete(&mut img, 0);
    let s = MemSource::new(img);
    let r = FatReader::new(&s, 0);
    let p = r.scrub_plan(&directory(), ScrubMode::Sweep).unwrap();
    assert_eq!(p.relocated, 0, "a sweep moves nothing");
    let t = p.edits.iter().find(|e| e.offset == ROOT).unwrap();
    assert_eq!(t.new[0], DELETED_MARK, "the marker stays so the live record stays visible");
    assert!(t.new[1..].iter().all(|&b| b == 0), "but the content goes");
    assert!(!p.edits.iter().any(|e| e.offset == ROOT + 32), "the live record is untouched");
}

#[test]
fn a_record_past_the_end_of_the_device_has_no_plan() {
    let s = MemSource::new(volume());
    let r = FatReader::new(&s, 0);
    let node = select("x", vec![Span::bytes(u64::MAX - 64, 32)]);
    assert!(r.scrub_plan(&node, ScrubMode::Record(Fill::Neutral)).is_none());
}

// ------------------------------------------------------------------- own scenarios

#[test]
fn the_words_of_a_record_plan() {
    let mut img = volume();
    synth_entry(&mut img, ROOT as usize, b"SECRET  TXT", 0x20, 5, 1234);
    delete(&mut img, 0);
    let s = MemSource::new(img);
    let r = FatReader::new(&s, 0);
    let p = r.scrub_plan(&record(0), ScrubMode::Record(Fill::Neutral)).unwrap();
    assert_eq!(p.label, "?EST.TXT (deleted)");
    assert_eq!(p.affected, vec![".ECRET  TXT"]);
    assert_eq!(p.edits[0].reason, "scrub deleted FAT record");
    assert_eq!(p.edits[0].old[1..11], *b"ECRET  TXT");
    assert_eq!(p.keeps.len(), 2);
    assert!(p.keeps[0].starts_with("the 0xE5 marker"));
    assert_eq!(p.warnings.len(), 1);
    assert_eq!(p.warnings[0].status, Status::Warn);
    assert!(p.warnings[0].message.contains("Cluster 5 at 0x0000005600"), "{}", p.warnings[0].message);
    let p = r.scrub_plan(&record(0), ScrubMode::Record(Fill::Zero)).unwrap();
    assert!(p.keeps[0].starts_with("nothing in these records"));
}

#[test]
fn a_plan_says_why_zeroing_could_not_be_checked() {
    let mut img = volume();
    // A record that is not inside the data area at all.
    img[1024] = DELETED_MARK;
    img[1025] = b'X';
    let s = MemSource::new(img.clone());
    let r = FatReader::new(&s, 0);
    let stray = select("stray", vec![Span::bytes(1024, 32)]);
    let p = r.scrub_plan(&stray, ScrubMode::Record(Fill::Zero)).unwrap();
    assert_eq!(p.zero_refusal, Some(ZeroRefusal::CouldNotVerify(WhyNot::OutsideData)));
    assert_eq!(WhyNot::OutsideData.message(), "the record is not inside the data area");
    // And on a volume whose geometry is unusable nothing can be checked.
    img[0x0D] = 3;
    let s = MemSource::new(img);
    let r = FatReader::new(&s, 0);
    let p = r.scrub_plan(&stray, ScrubMode::Record(Fill::Zero)).unwrap();
    assert_eq!(p.zero_refusal, Some(ZeroRefusal::CouldNotVerify(WhyNot::GeometryUnusable)));
    assert!(r.scrub_plan(&directory(), ScrubMode::Sweep).is_none());
}

#[test]
fn carrying_out_a_sweep_keeps_every_live_record_and_leaves_nothing_to_do() {
    let mut img = volume();
    for (i, name) in
        [b"A       TXT", b"B       TXT", b"C       TXT", b"D       TXT"].iter().enumerate()
    {
        synth_entry(&mut img, ROOT as usize + 32 * i, name, 0x20, 5, 10);
    }
    delete(&mut img, 1);
    delete(&mut img, 3);
    for mode in [ScrubMode::Sweep, ScrubMode::Compact] {
        let mut after = img.clone();
        let s = MemSource::new(img.clone());
        let p = FatReader::new(&s, 0).scrub_plan(&directory(), mode).unwrap();
        for e in &p.edits {
            let at = e.offset as usize;
            assert_eq!(&after[at..at + 32], &e.old[..], "an edit finds what it says");
            after[at..at + 32].copy_from_slice(&e.new);
        }
        let slot = |i: usize| after[ROOT as usize + 32 * i..ROOT as usize + 32 * i + 11].to_vec();
        assert_eq!(slot(0), b"A       TXT".to_vec());
        let live = if mode == ScrubMode::Compact { 1 } else { 2 };
        assert_eq!(slot(live), b"C       TXT".to_vec());
        let left: Vec<u8> = (0..16)
            .flat_map(|i| after[ROOT as usize + 32 * i + 1..ROOT as usize + 32 * i + 32].to_vec())
            .collect();
        assert!(!left.windows(2).any(|w| w == b"B " || w == b"D "));
        let s = MemSource::new(after);
        assert!(FatReader::new(&s, 0).scrub_plan(&directory(), mode).is_none());
    }
}

#[test]
fn fragments_alone_are_called_that() {
    let mut img = volume();
    let o = ROOT as usize;
    img[o] = DELETED_MARK;
    img[o + 1] = b'x';
    img[o + 0x0B] = 0x0F;
    let s = MemSource::new(img);
    let p =
        FatReader::new(&s, 0).scrub_plan(&record(0), ScrubMode::Record(Fill::Neutral)).unwrap();
    assert_eq!(p.affected, vec!["(long-filename fragments only)"]);
    assert!(p.warnings.is_empty());
    assert_eq!(p.removes.len(), 2);
}

#[test]
fn the_next_cluster_is_where_the_chain_leads() {
    // The root directory goes on in cluster 9, and cluster 3 is nobody's.
    let mut img = synth_fat32(100_000, 1, 800);
    let fat = 32 * 512;
    let data = (32 + 2 * 800) * 512;
    img[fat + 8..fat + 12].copy_from_slice(&9u32.to_le_bytes());
    img[fat + 36..fat + 40].copy_from_slice(&0x0FFF_FFFFu32.to_le_bytes());
    let last = data + 480;
    synth_entry(&mut img, last, b"GONE    TXT", 0x20, 5, 10);
    img[last] = DELETED_MARK;
    let next = data + 7 * 512;
    synth_entry(&mut img, next, b"KEEPME  TXT", 0x20, 6, 20);
    let record = select("GONE.TXT", vec![Span::bytes(last as u64, 32)]);
    let s = MemSource::new(img.clone());
    let p = FatReader::new(&s, 0).scrub_plan(&record, ScrubMode::Record(Fill::Zero)).unwrap();
    assert_eq!(
        p.zero_refusal,
        Some(ZeroRefusal::InUseRecordsFollow { count: 1, first_at: next as u64 })
    );
    // And where the chain ends there, what lies behind it is not asked.
    img[fat + 8..fat + 12].copy_from_slice(&0x0FFF_FFFFu32.to_le_bytes());
    synth_entry(&mut img, data + 512, b"OTHER   BIN", 0x20, 6, 20);
    let s = MemSource::new(img);
    let p = FatReader::new(&s, 0).scrub_plan(&record, ScrubMode::Record(Fill::Zero)).unwrap();
    assert!(p.zero_is_free(), "{:?}", p.zero_refusal);
}

/// A FAT16 volume with a fixed root directory of `entries` records, and where that is.
fn fixed_root(entries: u16) -> (Vec<u8>, usize) {
    let root_sectors = (entries as usize * 32).div_ceil(512);
    let total = 1 + 32 + root_sectors + 5000;
    let mut img = vec![0u8; total * 512];
    img[0x0B..0x0D].copy_from_slice(&512u16.to_le_bytes());
    img[0x0D] = 1;
    img[0x0E..0x10].copy_from_slice(&1u16.to_le_bytes());
    img[0x10] = 1;
    img[0x11..0x13].copy_from_slice(&entries.to_le_bytes());
    img[0x13..0x15].copy_from_slice(&(total as u16).to_le_bytes());
    img[0x16..0x18].copy_from_slice(&32u16.to_le_bytes());
    (img, 33 * 512)
}

#[test]
fn a_directory_with_too_many_records_has_no_plan() {
    for (entries, planned) in [(16384u16, true), (16400, false)] {
        let (mut img, root) = fixed_root(entries);
        synth_entry(&mut img, root, b"GONE    TXT", 0x20, 5, 10);
        img[root] = DELETED_MARK;
        let s = MemSource::new(img);
        let r = FatReader::new(&s, 0);
        let dir = select("root directory", vec![Span::bytes(root as u64, entries as u64 * 32)]);
        for mode in [ScrubMode::Sweep, ScrubMode::Compact] {
            assert_eq!(r.scrub_plan(&dir, mode).is_some(), planned, "{entries} records");
        }
    }
}

#[test]
fn nothing_follows_the_last_record_of_a_fixed_root() {
    let (mut img, root) = fixed_root(512);
    let last = root + 511 * 32;
    synth_entry(&mut img, last, b"GONE    TXT", 0x20, 5, 10);
    img[last] = DELETED_MARK;
    // Cluster 2 comes right behind it, and belongs to some file.
    synth_entry(&mut img, last + 32, b"OTHER   BIN", 0x20, 6, 20);
    let s = MemSource::new(img);
    let record = select("GONE.TXT", vec![Span::bytes(last as u64, 32)]);
    let p = FatReader::new(&s, 0).scrub_plan(&record, ScrubMode::Record(Fill::Zero)).unwrap();
    assert!(p.zero_is_free(), "{:?}", p.zero_refusal);
}
