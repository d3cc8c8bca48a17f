use blktamper_formats::common::{
    in_bounds, lba_to_byte, read_exact_opt, remaining, u16le, u32le, u64le, ChainGuard, Step,
};
use blktamper_formats::desc::{read_desc_at, Check, FieldDesc, ReadCtx, StructDesc};
use blktamper_formats::registry::Format;
use blktamper_formats::source::{FailingSource, MemSource};
use blktamper_formats::{all_descriptors, registry};

#[test]
fn lba_conversion_refuses_to_wrap() {
    assert_eq!(lba_to_byte(2048, 512), Some(1_048_576));
    assert_eq!(lba_to_byte(u64::MAX, 4096), None);
}

#[test]
fn bounds_checks_do_not_overflow() {
    let s = MemSource::new(vec![0; 100]);
    assert!(in_bounds(&s, 0, 100));
    assert!(!in_bounds(&s, 0, 101));
    assert!(!in_bounds(&s, u64::MAX, 1));
}

#[test]
fn chain_guard_catches_loops_and_runaways() {
    let mut g = ChainGuard::new(4);
    assert_eq!(g.visit(1), Step::Continue);
    assert_eq!(g.visit(2), Step::Continue);
    assert_eq!(g.visit(1), Step::Loop);
    let mut g = ChainGuard::new(2);
    g.visit(1);
    g.visit(2);
    assert_eq!(g.visit(3), Step::TooLong);
}

#[test]
fn short_buffer_reads_return_none_not_garbage() {
    let b = [1u8, 2, 3];
    assert_eq!(u16le(&b, 0), Some(0x0201));
    assert_eq!(u32le(&b, 0), None);
    assert_eq!(u64le(&b, 0), None);
}

#[test]
fn the_read_offset_wins_over_the_context_base() {
    // A stale context must not produce fields whose offsets point at the wrong place.
    let d = StructDesc {
        name: "d",
        size: 4,
        fields: vec![
            FieldDesc { name: "a", off: 0, width: 2, check: Check::Any },
            FieldDesc { name: "b", off: 2, width: 2, check: Check::Any },
        ],
    };
    let src = MemSource::new((0..64u8).collect());
    let n = read_desc_at(&src, &d, 0x10, ReadCtx::at(0));
    assert_eq!(n.at, 0x10);
    assert_eq!(n.fields[0].at, 0x10);
    assert_eq!(n.fields[1].at, 0x12);
    assert_eq!(n.fields[0].number, Some(0x1110));
    assert_eq!(n.fields[1].number, Some(0x1312));
    assert_eq!(n.region_base, 0);
}

#[test]
fn a_guard_counts_what_it_let_through() {
    let mut g = ChainGuard::new(3);
    assert!(g.is_empty());
    let steps: Vec<Step> = [7u64, 7, 8, 9, 10, 7].iter().map(|v| g.visit(*v)).collect();
    assert_eq!(
        steps,
        vec![Step::Continue, Step::Loop, Step::Continue, Step::Continue, Step::TooLong, Step::TooLong]
    );
    assert_eq!(g.len(), 3);
    assert!(!g.is_empty());
}

#[test]
fn what_is_left_of_a_device_saturates_at_zero() {
    let s = MemSource::new(vec![0; 100]);
    assert_eq!(remaining(&s, 40), 60);
    assert_eq!(remaining(&s, 100), 0);
    assert_eq!(remaining(&s, u64::MAX), 0);
}

#[test]
fn a_refused_read_is_not_an_empty_one() {
    let s = FailingSource { inner: MemSource::new(vec![7; 100]), fail_from: 50 };
    assert_eq!(read_exact_opt(&s, 0, 4), Some(vec![7, 7, 7, 7]));
    assert_eq!(read_exact_opt(&s, 48, 4), None);
    let m = MemSource::new(vec![7; 100]);
    assert_eq!(read_exact_opt(&m, 98, 4), Some(vec![7, 7]));
    assert_eq!(read_exact_opt(&m, 100, 4), Some(vec![]));
}

#[test]
fn a_short_record_says_which_fields_are_missing() {
    let d = StructDesc {
        name: "d",
        size: 4,
        fields: vec![
            FieldDesc { name: "a", off: 0, width: 2, check: Check::Equal { value: 0x0100 } },
            FieldDesc { name: "b", off: 2, width: 2, check: Check::NonZero },
        ],
    };
    let src = MemSource::new(vec![0, 1, 2]);
    let n = read_desc_at(&src, &d, 0, ReadCtx::at(0));
    assert!(n.fields[0].present && n.fields[0].passes);
    assert!(!n.fields[1].present);
    assert_eq!(n.fields[1].number, None);
    assert!(!n.has_flaw());
    let n = read_desc_at(&src, &d, 1, ReadCtx::at(0));
    assert!(n.fields[0].present && !n.fields[0].passes);
    assert!(n.has_flaw());
}

#[test]
fn every_format_is_registered_once() {
    let r = registry();
    let ids: Vec<&str> = r.formats().iter().map(|f| f.id()).collect();
    assert_eq!(ids, vec!["mbr", "gpt", "fat", "exfat"]);
    assert_eq!(Format::Exfat.name(), "exFAT volume");
}

#[test]
fn only_its_own_format_claims_a_made_volume() {
    let gpt = MemSource::new(blktamper_formats::gpt::synth_gpt(2048, &[]));
    assert_eq!(Format::Gpt.probe(&gpt, 0), 100);
    assert_eq!(Format::Fat.probe(&gpt, 0), 0);
    assert_eq!(Format::Exfat.probe(&gpt, 0), 0);
    let fat = MemSource::new(blktamper_formats::fat::synth_fat32(100_000, 1, 800));
    assert_eq!(Format::Fat.probe(&fat, 0), 100);
    assert_eq!(Format::Gpt.probe(&fat, 0), 0);
    assert_eq!(Format::Exfat.probe(&fat, 0), 0);
    let exfat = MemSource::new(blktamper_formats::exfat::synth_volume(&[]));
    assert_eq!(Format::Exfat.probe(&exfat, 0), 100);
    assert_eq!(Format::Fat.probe(&exfat, 0), 0);
}

#[test]
fn every_layout_tiles_its_record() {
    let all = all_descriptors();
    assert_eq!(all.len(), 22);
    for d in &all {
        let mut next = 0;
        for f in &d.fields {
            assert_eq!(f.off, next, "{} in {}", f.name, d.name);
            next += f.width;
        }
        assert_eq!(next, d.size, "{}", d.name);
    }
}
