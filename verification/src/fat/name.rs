//! Short names, long-filename fragments, and what a deletion leaves of either.

use crate::checksum;
use crate::checksum::ChecksumAlgo;
use crate::common;
use crate::fat::desc;
use crate::text;
use crate::text::Text;
use vstd::prelude::*;
use vstd::slice::slice_subrange;

verus! {

// ------------------------------------------------------------------ short names

/// Bytes without the spaces that end them.
pub open spec fn unpadded(b: Seq<u8>) -> Seq<u8>
    decreases b.len(),
{
    if b.len() > 0 && b.last() == 0x20 {
        unpadded(b.drop_last())
    } else {
        b
    }
}

/// Part of a name as text: unprintable characters become dots.
pub open spec fn part_text(b: Seq<u8>) -> Seq<char> {
    text::ascii(unpadded(b))
}

/// The first byte of a name as it is shown: a deletion mark becomes a question mark,
/// and the substitute for a leading 0xE5 becomes that byte.
pub open spec fn shown_first(b: u8) -> u8 {
    if b == desc::DELETED_MARK {
        0x3F
    } else if b == desc::KANJI_E5 {
        0xE5
    } else {
        b
    }
}

/// The attribute byte marks a volume label, and not a long-filename fragment.
pub open spec fn labels_volume(attr: u8) -> bool {
    (attr / 8) % 2 == 1 && attr % 64 != 15
}

/// The name of a directory record as a human reads it. A volume label is one name with
/// no implied dot.
pub open spec fn short_text(b: Seq<u8>) -> Seq<char> {
    let n = b.take(11).update(0, shown_first(b[0]));
    if labels_volume(b[0x0B]) {
        part_text(n)
    } else if part_text(n.subrange(8, 11)).len() == 0 {
        part_text(n.subrange(0, 8))
    } else {
        part_text(n.subrange(0, 8)) + "."@ + part_text(n.subrange(8, 11))
    }
}

fn push_part(t: Text, b: &[u8]) -> (r: (Text, bool))
    ensures
        r.0@ == t@ + part_text(b@),
        r.1 == (part_text(b@).len() == 0),
{
    let mut n: usize = b.len();
    assert(b@.take(n as int) =~= b@);
    while n > 0 && b[n - 1] == 0x20
        invariant
            n <= b@.len(),
            unpadded(b@) == unpadded(b@.take(n as int)),
        decreases n,
    {
        assert(b@.take(n as int).drop_last() =~= b@.take(n - 1));
        n -= 1;
    }
    let part: &[u8] = slice_subrange(b, 0, n);
    assert(part@ =~= b@.take(n as int));
    (t.ascii(part), n == 0)
}

/// The name of a directory record as a human reads it. Never hides a byte.
pub fn short_name(b: &[u8]) -> (r: String)
    requires
        b@.len() == 32,
    ensures
        r@ == short_text(b@),
{
    let mut name: Vec<u8> = Vec::new();
    let mut i: usize = 0;
    while i < 11
        invariant
            i <= 11,
            b@.len() == 32,
            name@ =~= b@.take(i as int),
        decreases 11 - i,
    {
        name.push(b[i]);
        i += 1;
    }
    let first: u8 = b[0];
    let shown: u8 = if first == desc::DELETED_MARK {
        0x3F
    } else if first == desc::KANJI_E5 {
        0xE5
    } else {
        first
    };
    name[0] = shown;
    assert(name@ =~= b@.take(11).update(0, shown_first(b@[0])));
    let attr: u8 = b[0x0B];
    proof {
        reveal_strlit("");
    }
    if (attr / 8) % 2 == 1 && attr % 64 != 15 {
        let (t, _empty) = push_part(Text::of(""), &name);
        assert(t@ =~= short_text(b@));
        return t.done();
    }
    let stem: &[u8] = slice_subrange(&name, 0, 8);
    let ext: &[u8] = slice_subrange(&name, 8, 11);
    let (t, _empty) = push_part(Text::of(""), stem);
    assert(t@ =~= part_text(stem@));
    let (_e, empty) = push_part(Text::of(""), ext);
    if empty {
        return t.done();
    }
    let (t, _empty) = push_part(t.lit("."), ext);
    t.done()
}

/// What the attribute byte makes of an entry that is neither file nor fragment.
#[derive(Clone, Copy, Debug, PartialEq, Eq, Structural)]
pub enum AttrLabel {
    VolumeLabel,
    Directory,
    Neither,
}

/// What the attribute byte makes of an entry.
pub open spec fn attr_label_of(attr: u8) -> AttrLabel {
    if (attr / 8) % 2 == 1 {
        AttrLabel::VolumeLabel
    } else if (attr / 16) % 2 == 1 {
        AttrLabel::Directory
    } else {
        AttrLabel::Neither
    }
}

pub fn attr_label(attr: u8) -> (r: AttrLabel)
    ensures
        r == attr_label_of(attr),
{
    if (attr / 8) % 2 == 1 {
        AttrLabel::VolumeLabel
    } else if (attr / 16) % 2 == 1 {
        AttrLabel::Directory
    } else {
        AttrLabel::Neither
    }
}

// -------------------------------------------------------------------- fragments

/// Offset of code unit `i` of a fragment: five, then six, then two.
pub open spec fn unit_offset(i: int) -> int {
    if i < 5 {
        1 + 2 * i
    } else if i < 11 {
        0x0E + 2 * (i - 5)
    } else {
        0x1C + 2 * (i - 11)
    }
}

/// The code units of a fragment from unit `i` on, up to a terminator or padding.
pub open spec fn units_from(b: Seq<u8>, i: nat) -> Seq<u16>
    decreases 13 - i,
{
    if i >= 13 {
        Seq::empty()
    } else {
        let u = common::le16(b, unit_offset(i as int));
        if u == 0x0000 || u == 0xFFFF {
            Seq::empty()
        } else {
            seq![u] + units_from(b, i + 1)
        }
    }
}

/// What a fragment spells. The terminator and the padding after it are left out of the
/// name, never out of the fields.
pub open spec fn chunk_text(b: Seq<u8>) -> Seq<char> {
    text::utf16_text(units_from(b, 0))
}

/// What a fragment spells.
pub fn lfn_chunk(b: &[u8]) -> (r: String)
    requires
        b@.len() == 32,
    ensures
        r@ == chunk_text(b@),
{
    let mut units: Vec<u16> = Vec::new();
    let mut i: usize = 0;
    loop
        invariant
            i <= 13,
            b@.len() == 32,
            units_from(b@, 0) =~= units@ + units_from(b@, i as nat),
        ensures
            units_from(b@, 0) =~= units@,
        decreases 13 - i,
    {
        if i >= 13 {
            break;
        }
        let o: usize = if i < 5 {
            1 + 2 * i
        } else if i < 11 {
            0x0E + 2 * (i - 5)
        } else {
            0x1C + 2 * (i - 11)
        };
        let u: u16 = common::u16_or_zero(b, o);
        if u == 0x0000 || u == 0xFFFF {
            break;
        }
        units.push(u);
        i += 1;
    }
    decode_units(&units)
}

/// Decode code units, lossily.
pub fn decode_units(units: &[u16]) -> (r: String)
    ensures
        r@ == text::utf16_text(units@),
{
    text::decode_utf16(units)
}

// --------------------------------------------------------------------- checksums

/// The checksum that ties a long name to a short entry.
pub open spec fn name_sum(name: Seq<u8>) -> u8 {
    ChecksumAlgo::FatShortName.value(name, Seq::empty()) as u8
}

/// The checksum that ties a long name to a short entry.
pub fn short_name_checksum(name: &[u8]) -> (r: u8)
    ensures
        r == name_sum(name@),
{
    let ranges: Vec<(u64, u64)> = Vec::new();
    assert(ranges@ =~= Seq::empty());
    ChecksumAlgo::FatShortName.compute(name, &ranges) as u8
}

/// The first bytes from 0x20 up to `n` that give a name the checksum `want`.
pub open spec fn candidates(name: Seq<u8>, want: u8, n: int) -> Seq<u8>
    decreases n - 0x20,
{
    if n <= 0x20 {
        Seq::empty()
    } else {
        let before = candidates(name, want, n - 1);
        if name_sum(name.update(0, (n - 1) as u8)) == want {
            before.push((n - 1) as u8)
        } else {
            before
        }
    }
}

/// For a deleted entry, the first-character values that would make the stored
/// long-name checksum come out right.
pub fn recover_first_char(name: &[u8], want: u8) -> (r: Vec<u8>)
    requires
        name@.len() == 11,
    ensures
        r@ == candidates(name@, want, 0x100),
{
    let mut probe: Vec<u8> = Vec::new();
    let mut i: usize = 0;
    while i < 11
        invariant
            i <= 11,
            name@.len() == 11,
            probe@ =~= name@.take(i as int),
        decreases 11 - i,
    {
        probe.push(name[i]);
        i += 1;
    }
    let mut out: Vec<u8> = Vec::new();
    let mut c: u16 = 0x20;
    while c < 0x100
        invariant
            0x20 <= c <= 0x100,
            name@.len() == 11,
            probe@.len() == 11,
            forall|j: int| 0 < j < 11 ==> probe@[j] == name@[j],
            out@ == candidates(name@, want, c as int),
        decreases 0x100 - c,
    {
        probe[0] = c as u8;
        assert(probe@ =~= name@.update(0, c as u8));
        if short_name_checksum(&probe) == want {
            out.push(c as u8);
        }
        c += 1;
    }
    out
}

/// The checksum pins the first byte down: at most one candidate is ever found, and when
/// a name that started with a character loses it, that character is the one found.
pub proof fn lemma_recovery_is_unique(name: Seq<u8>, want: u8, c: u8)
    requires
        name.len() == 11,
    ensures
        candidates(name, want, 0x100).len() <= 1,
        c >= 0x20 && name_sum(name.update(0, c)) == want ==> candidates(name, want, 0x100)
            =~= seq![c],
{
    lemma_candidates_found(name, want, 0x100);
    let all = candidates(name, want, 0x100);
    if all.len() > 1 {
        let a = all[0];
        let b = all[1];
        assert(a < b);
        lemma_sum_is_injective(name, a, b);
    }
    if c >= 0x20 && name_sum(name.update(0, c)) == want {
        assert(all.contains(c));
    }
}

/// The candidates are ascending, each gives the checksum, and none is missing.
proof fn lemma_candidates_found(name: Seq<u8>, want: u8, n: int)
    requires
        0x20 <= n <= 0x100,
    ensures
        ({
            let all = candidates(name, want, n);
            &&& forall|i: int|
                0 <= i < all.len() ==> 0x20 <= #[trigger] all[i] < n && name_sum(
                    name.update(0, all[i]),
                ) == want
            &&& forall|i: int, j: int| 0 <= i < j < all.len() ==> all[i] < all[j]
            &&& forall|c: u8|
                0x20 <= c < n && name_sum(#[trigger] name.update(0, c)) == want ==> all.contains(c)
        }),
    decreases n,
{
    if n > 0x20 {
        lemma_candidates_found(name, want, n - 1);
        let before = candidates(name, want, n - 1);
        let all = candidates(name, want, n);
        let last = (n - 1) as u8;
        if name_sum(name.update(0, last)) == want {
            assert(all[before.len() as int] == last);
            assert forall|c: u8|
                0x20 <= c < n && name_sum(#[trigger] name.update(0, c)) == want implies all.contains(
                c,
            ) by {
                if c < n - 1 {
                    let i = choose|i: int| 0 <= i < before.len() && before[i] == c;
                    assert(all[i] == c);
                }
            }
        }
    }
}

/// Names that differ in their first byte have different checksums.
proof fn lemma_sum_is_injective(name: Seq<u8>, a: u8, b: u8)
    requires
        name.len() == 11,
        name_sum(name.update(0, a)) == name_sum(name.update(0, b)),
    ensures
        a == b,
{
    let x = name.update(0, a);
    let y = name.update(0, b);
    lemma_rotation_bound(x);
    lemma_rotation_bound(y);
    lemma_rotation_is_injective(x, y);
}

proof fn lemma_rotation_bound(s: Seq<u8>)
    ensures
        0 <= checksum::rotate_add(s, Seq::empty(), 0x80) < 0x100,
    decreases s.len(),
{
    if s.len() > 0 {
        lemma_rotation_bound(s.drop_last());
    }
}

proof fn lemma_step_is_injective(p: int, q: int, byte: u8)
    requires
        0 <= p < 0x100,
        0 <= q < 0x100,
        checksum::rotate_add_step(p, byte, 0x80) == checksum::rotate_add_step(q, byte, 0x80),
    ensures
        p == q,
{
    let x = p / 2 + (p % 2) * 0x80;
    let y = q / 2 + (q % 2) * 0x80;
    let b = byte as int;
    assert((x + b) % 256 == (y + b) % 256);
    assert(0 <= x < 256);
    assert(0 <= y < 256);
    assert(x == y) by {
        if x + b >= 256 {
            assert((x + b) % 256 == x + b - 256);
        }
        if y + b >= 256 {
            assert((y + b) % 256 == y + b - 256);
        }
    }
}

proof fn lemma_rotation_is_injective(x: Seq<u8>, y: Seq<u8>)
    requires
        x.len() == y.len() > 0,
        forall|i: int| 0 < i < x.len() ==> x[i] == y[i],
        checksum::rotate_add(x, Seq::empty(), 0x80) == checksum::rotate_add(y, Seq::empty(), 0x80),
    ensures
        x[0] == y[0],
    decreases x.len(),
{
    let none = Seq::<(u64, u64)>::empty();
    assert(!checksum::excluded(none, x.len() - 1));
    lemma_rotation_bound(x.drop_last());
    lemma_rotation_bound(y.drop_last());
    let p = checksum::rotate_add(x.drop_last(), none, 0x80);
    let q = checksum::rotate_add(y.drop_last(), none, 0x80);
    if x.len() == 1 {
        assert(checksum::rotate_add_step(0, x[0], 0x80) == x[0]);
        assert(checksum::rotate_add_step(0, y[0], 0x80) == y[0]);
        assert(p == 0 && q == 0);
        assert(x.last() == x[0] && y.last() == y[0]);
    } else {
        let byte = x.last();
        assert(x.last() == y.last());
        lemma_step_is_injective(p, q, byte);
        lemma_rotation_is_injective(x.drop_last(), y.drop_last());
    }
}

} // verus!
