//! MBR sectors made to order.

use crate::bytes;
use crate::bytes::{write_byte, write_le};
use crate::common;
use crate::mbr::entry;
use crate::mbr::entry::EntryFacts;
use crate::mbr::reader;
use vstd::prelude::*;

verus! {

/// A sector with one more entry, in slot `i`.
pub open spec fn with_entry(s: Seq<u8>, i: int, e: (u8, u8, u32, u32)) -> Seq<u8> {
    let o = 0x1BE + 16 * i;
    bytes::put(
        bytes::put(
            s.update(o, e.0).update(o + 4, e.1),
            o + 8,
            bytes::le_bytes(e.2 as int, 4),
        ),
        o + 12,
        bytes::le_bytes(e.3 as int, 4),
    )
}

/// A blank sector with the first `n` entries of a list in its slots.
pub open spec fn with_entries(entries: Seq<(u8, u8, u32, u32)>, n: nat) -> Seq<u8>
    decreases n,
{
    if n == 0 {
        bytes::zeros(512)
    } else {
        with_entry(with_entries(entries, (n - 1) as nat), n - 1, entries[n - 1])
    }
}

/// How many entries of a list fit a sector.
pub open spec fn fitting(entries: Seq<(u8, u8, u32, u32)>) -> nat {
    if entries.len() <= 4 {
        entries.len()
    } else {
        4
    }
}

/// The sector that holds the first four entries of a list: status, type, first sector
/// and length of each.
pub open spec fn mbr_image(entries: Seq<(u8, u8, u32, u32)>) -> Seq<u8> {
    with_entries(entries, fitting(entries)).update(0x1FE, 0x55).update(0x1FF, 0xAA)
}

/// Build an MBR sector.
pub fn synth_mbr(entries: &[(u8, u8, u32, u32)]) -> (s: Vec<u8>)
    ensures
        s@ == mbr_image(entries@),
        s@.len() == 512,
{
    let n: usize = if entries.len() <= 4 { entries.len() } else { 4 };
    let mut s: Vec<u8> = vec![0u8; 512];
    assert(s@ =~= bytes::zeros(512));
    let mut i: usize = 0;
    while i < n
        invariant
            i <= n <= 4,
            n <= entries@.len(),
            s@.len() == 512,
            s@ == with_entries(entries@, i as nat),
        decreases n - i,
    {
        let o: usize = 0x1BE + 16 * i;
        let (status, ty, start, count): (u8, u8, u32, u32) = entries[i];
        write_byte(&mut s, o, status);
        write_byte(&mut s, o + 4, ty);
        write_le(&mut s, o + 8, start as u64, 4);
        write_le(&mut s, o + 12, count as u64, 4);
        i += 1;
    }
    write_byte(&mut s, 0x1FE, 0x55);
    write_byte(&mut s, 0x1FF, 0xAA);
    s
}

/// What slot `i` of a made sector says.
pub open spec fn facts_given(entries: Seq<(u8, u8, u32, u32)>, i: int) -> EntryFacts {
    if i < entries.len() {
        EntryFacts {
            status: entries[i].0 as u64,
            part_type: entries[i].1 as u64,
            lba_first: entries[i].2 as u64,
            num_sectors: entries[i].3 as u64,
        }
    } else {
        EntryFacts { status: 0, part_type: 0, lba_first: 0, num_sectors: 0 }
    }
}

/// A made sector reads back: it carries the boot signature, and each of its four slots
/// says what was put there, or nothing.
pub proof fn lemma_synth_reads_back(entries: Seq<(u8, u8, u32, u32)>, i: int)
    requires
        0 <= i < 4,
    ensures
        mbr_image(entries).len() == 512,
        reader::signed(mbr_image(entries)),
        entry::facts_of(reader::slot_bytes(mbr_image(entries), i)) == facts_given(entries, i),
{
    lemma_entries_read_back(entries, fitting(entries), i);
    let s = with_entries(entries, fitting(entries));
    let img = mbr_image(entries);
    assert(reader::slot_bytes(img, i) =~= reader::slot_bytes(s, i));
}

proof fn lemma_entries_read_back(entries: Seq<(u8, u8, u32, u32)>, n: nat, i: int)
    requires
        n <= 4,
        n <= entries.len(),
        0 <= i < 4,
    ensures
        with_entries(entries, n).len() == 512,
        i < n ==> entry::facts_of(reader::slot_bytes(with_entries(entries, n), i)) == facts_given(
            entries,
            i,
        ),
        i >= n ==> entry::facts_of(reader::slot_bytes(with_entries(entries, n), i)) == (
        EntryFacts { status: 0, part_type: 0, lba_first: 0, num_sectors: 0 }),
    decreases n,
{
    if n > 0 {
        lemma_entries_read_back(entries, (n - 1) as nat, i);
        let s = with_entries(entries, (n - 1) as nat);
        let e = entries[n - 1];
        let o = 0x1BE + 16 * (n - 1);
        bytes::lemma_le_bytes_len(e.2 as int, 4);
        bytes::lemma_le_bytes_len(e.3 as int, 4);
        let a = s.update(o, e.0).update(o + 4, e.1);
        let b = bytes::put(a, o + 8, bytes::le_bytes(e.2 as int, 4));
        let c = with_entry(s, n - 1, e);
        if i < n - 1 || i > n - 1 {
            assert(reader::slot_bytes(c, i) =~= reader::slot_bytes(s, i));
        } else {
            bytes::lemma_u32_round_trip(a, o + 8, e.2);
            bytes::lemma_u32_round_trip(b, o + 12, e.3);
            let t = reader::slot_bytes(c, i);
            assert(t[0] == e.0 && t[4] == e.1);
            assert(common::le32(t, 8) == common::le32(b, o + 8));
            assert(common::le32(t, 12) == common::le32(c, o + 12));
        }
    } else {
        let t = reader::slot_bytes(bytes::zeros(512), i);
        assert(t.len() == 16);
    }
}

} // verus!
