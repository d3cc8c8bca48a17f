//! What the texts come down to: digits that spell their numbers, and characters that stand
//! for their bytes and code units.

use crate::text;
use vstd::arithmetic::div_mod;
use vstd::prelude::*;

verus! {

// ------------------------------------------------------------------------- numbers

/// The value of a digit: 0 to 9, and A to F for ten to fifteen.
pub open spec fn face(c: char) -> int {
    if '0' <= c && c <= '9' {
        c as int - '0' as int
    } else {
        c as int - 'A' as int + 10
    }
}

/// The number that digits spell, the highest first.
pub open spec fn spelled(s: Seq<char>, radix: int) -> int
    decreases s.len(),
{
    if s.len() == 0 {
        0
    } else {
        spelled(s.drop_last(), radix) * radix + face(s.last())
    }
}

/// Every character is a digit of the radix.
pub open spec fn all_digits(s: Seq<char>, radix: int) -> bool {
    forall|i: int|
        0 <= i < s.len() ==> (0 <= face(#[trigger] s[i]) < radix && (('0' <= s[i] && s[i] <= '9') || (
        'A' <= s[i] && s[i] <= 'F')))
}

/// Decimal and hexadecimal digits spell their number, with no zero in front that could be
/// left out.
pub proof fn lemma_digits_spell_their_number(n: nat, radix: nat)
    requires
        radix == 10 || radix == 16,
    ensures
        spelled(text::digits(n, radix), radix as int) == n,
        all_digits(text::digits(n, radix), radix as int),
        text::digits(n, radix).len() >= 1,
        n > 0 ==> text::digits(n, radix)[0] != '0',
        text::dec(n as int) == text::digits(n, 10),
    decreases n,
{
    let s = text::digits(n, radix);
    if n < radix {
        assert(s =~= seq![text::digit(n as int)]);
        assert(s.drop_last() =~= Seq::<char>::empty());
        assert(spelled(s.drop_last(), radix as int) == 0);
        assert(face(s.last()) == n);
    } else {
        div_mod::lemma_div_decreases(n as int, radix as int);
        div_mod::lemma_fundamental_div_mod(n as int, radix as int);
        div_mod::lemma_mod_bound(n as int, radix as int);
        lemma_digits_spell_their_number(n / radix, radix);
        let front = text::digits(n / radix, radix);
        let d = (n % radix) as int;
        assert(s == front.push(text::digit(d)));
        assert(s.drop_last() =~= front);
        assert(face(text::digit(d)) == d);
        assert((n / radix) * radix == radix * (n / radix)) by (nonlinear_arith);
        assert(n / radix > 0) by (nonlinear_arith)
            requires
                n >= radix,
                radix > 0,
        ;
        assert(s[0] == front[0]);
        assert forall|i: int| 0 <= i < s.len() implies (0 <= face(#[trigger] s[i]) < radix && (('0'
            <= s[i] && s[i] <= '9') || ('A' <= s[i] && s[i] <= 'F'))) by {
            if i < front.len() {
                assert(s[i] == front[i]);
            }
        }
    }
}

/// Padding puts zeroes in front up to the width and changes nothing else.
pub proof fn lemma_padding_is_zeroes_in_front(s: Seq<char>, width: nat)
    ensures
        ({
            let p = text::zero_padded(s, width);
            let more = p.len() - s.len();
            &&& p.len() == if s.len() >= width { s.len() } else { width }
            &&& p.skip(more) == s
            &&& forall|i: int| 0 <= i < more ==> #[trigger] p[i] == '0'
        }),
    decreases width - s.len(),
{
    if s.len() < width {
        let t = seq!['0'] + s;
        lemma_padding_is_zeroes_in_front(t, width);
        let p = text::zero_padded(s, width);
        let more = p.len() - s.len();
        assert(p.skip(more - 1) == t);
        assert forall|i: int| 0 <= i < more implies #[trigger] p[i] == '0' by {
            if i == more - 1 {
                assert(p.skip(more - 1)[0] == t[0]);
            }
        }
        assert(p.skip(more) =~= s) by {
            assert forall|i: int| 0 <= i < s.len() implies p.skip(more)[i] == s[i] by {
                assert(p.skip(more - 1)[i + 1] == t[i + 1]);
            }
        }
    } else {
        assert(s.skip(0) =~= s);
    }
}

/// Hexadecimal text is its digits, padded, behind the sign that says so.
pub proof fn lemma_hex_is_signed_digits(n: nat, width: nat)
    ensures
        text::hex(n as int, width) == seq!['0', 'x'] + text::hex_bare(n as int, width),
        text::hex_bare(n as int, width) == text::zero_padded(text::digits(n, 16), width),
        text::hex_small_bare(n as int, width).len() == text::hex_bare(n as int, width).len(),
        forall|i: int|
            0 <= i < text::hex_bare(n as int, width).len() ==> {
                let c = text::hex_bare(n as int, width)[i];
                let s = #[trigger] text::hex_small_bare(n as int, width)[i];
                if 'A' <= c && c <= 'F' {
                    s as int == c as int + 32
                } else {
                    s == c
                }
            },
{
}

/// Bytes in hexadecimal are two digits each, with a space between them.
pub proof fn lemma_hex_bytes_one_by_one(bytes: Seq<u8>, b: u8)
    ensures
        text::hex_bytes(Seq::empty()) == Seq::<char>::empty(),
        text::hex_bytes(bytes.push(b)) == text::hex_bytes(bytes) + (if bytes.len() > 0 {
            seq![' ']
        } else {
            Seq::empty()
        }) + text::hex_bare(b as int, 2),
        text::hex_bare(b as int, 2).len() == 2,
        spelled(text::hex_bare(b as int, 2), 16) == b,
{
    assert(bytes.push(b).drop_last() =~= bytes);
    lemma_digits_spell_their_number(b as nat, 16);
    let d = text::digits(b as nat, 16);
    let p = text::hex_bare(b as int, 2);
    if b < 16 {
        assert(d.len() == 1);
        let z = seq!['0'] + d;
        assert(z.len() == 2);
        reveal_with_fuel(text::zero_padded, 3);
        assert(p == z);
        assert(z.drop_last() =~= seq!['0']);
        assert(seq!['0'].drop_last() =~= Seq::<char>::empty());
        assert(spelled(seq!['0'].drop_last(), 16) == 0);
        assert(spelled(seq!['0'], 16) == 0);
        assert(z.last() == d[0]);
        assert(d.drop_last() =~= Seq::<char>::empty());
        assert(spelled(d.drop_last(), 16) == 0);
        assert(spelled(d, 16) == face(d.last()));
    } else {
        assert(b as nat / 16 < 16);
        assert(d == text::digits(b as nat / 16, 16).push(text::digit((b as nat % 16) as int)));
        assert(d.len() == 2);
        assert(p == d);
    }
}

// ---------------------------------------------------------------------- characters

/// Printable bytes stand for themselves, and every other for a dot.
pub proof fn lemma_ascii_text(bytes: Seq<u8>)
    ensures
        text::ascii(bytes).len() == bytes.len(),
        forall|i: int|
            0 <= i < bytes.len() ==> {
                let c = #[trigger] text::ascii(bytes)[i];
                if ' ' as u8 <= bytes[i] <= '~' as u8 {
                    c as int == bytes[i]
                } else {
                    c == '.'
                }
            },
{
}

/// Trimming takes spaces and zeroes off the end, and only those.
pub proof fn lemma_trimmed_text(bytes: Seq<u8>)
    ensures
        ({
            let t = text::trimmed(bytes);
            &&& t.len() <= bytes.len()
            &&& t == bytes.take(t.len() as int)
            &&& t.len() > 0 ==> t.last() != 0x20 && t.last() != 0
            &&& forall|i: int| t.len() <= i < bytes.len() ==> #[trigger] bytes[i] == 0x20 || bytes[i] == 0
        }),
    decreases bytes.len(),
{
    if bytes.len() > 0 && (bytes.last() == 0x20 || bytes.last() == 0) {
        lemma_trimmed_text(bytes.drop_last());
        let t = text::trimmed(bytes);
        assert(bytes.drop_last().take(t.len() as int) =~= bytes.take(t.len() as int));
        assert forall|i: int| t.len() <= i < bytes.len() implies #[trigger] bytes[i] == 0x20 || bytes[i]
            == 0 by {
            if i < bytes.len() - 1 {
                assert(bytes.drop_last()[i] == bytes[i]);
            }
        }
    } else {
        assert(bytes.take(bytes.len() as int) =~= bytes);
    }
}

/// Pairs of surrogates count up from the first character that needs one: the next low one
/// is the next character, and so is the next high one once the low ones have run out.
pub proof fn lemma_surrogate_pairs_count_up(high: u16, low: u16)
    requires
        0xD800 <= high <= 0xDBFF,
        0xDC00 <= low <= 0xDFFF,
    ensures
        text::paired_units(0xD800, 0xDC00) as int == 0x1_0000,
        low < 0xDFFF ==> text::paired_units(high, (low + 1) as u16) as int == text::paired_units(high, low)
            as int + 1,
        high < 0xDBFF ==> text::paired_units((high + 1) as u16, 0xDC00) as int == text::paired_units(
            high,
            0xDFFF,
        ) as int + 1,
        text::is_high_surrogate(high) && !text::is_low_surrogate(high),
        text::is_low_surrogate(low) && !text::is_high_surrogate(low),
{
}

/// Code units that are no surrogates are the characters of the same number, one by one.
pub proof fn lemma_plain_units_are_characters(units: Seq<u16>)
    requires
        forall|i: int| 0 <= i < units.len() ==> !(0xD800 <= #[trigger] units[i] <= 0xDFFF),
    ensures
        text::utf16_text(units).len() == units.len(),
        forall|i: int|
            0 <= i < units.len() ==> #[trigger] text::utf16_text(units)[i] as int == units[i],
    decreases units.len(),
{
    if units.len() > 0 {
        let rest = units.skip(1);
        assert(!(0xD800 <= units[0] <= 0xDFFF));
        assert forall|i: int| 0 <= i < rest.len() implies !(0xD800 <= #[trigger] rest[i] <= 0xDFFF) by {
            assert(rest[i] == units[i + 1]);
        }
        lemma_plain_units_are_characters(rest);
        let t = text::utf16_text(units);
        assert(t == seq![text::lone_unit(units[0])] + text::utf16_text(rest));
        assert forall|i: int| 0 <= i < units.len() implies #[trigger] t[i] as int == units[i] by {
            if i > 0 {
                assert(t[i] == text::utf16_text(rest)[i - 1]);
                assert(rest[i - 1] == units[i]);
            }
        }
    }
}

/// A surrogate without its partner stands for the replacement character.
pub proof fn lemma_lone_surrogate_is_replaced(u: u16)
    requires
        0xD800 <= u <= 0xDFFF,
    ensures
        text::lone_unit(u) as int == 0xFFFD,
        text::utf16_text(seq![u]) == seq![text::lone_unit(u)],
{
    assert(seq![u].skip(1) =~= Seq::<u16>::empty());
    assert(text::utf16_text(seq![u].skip(1)) =~= Seq::<char>::empty());
    assert(seq![text::lone_unit(u)] + Seq::<char>::empty() =~= seq![text::lone_unit(u)]);
}

/// Text is read up to the first zero, whatever follows it.
pub proof fn lemma_text_ends_at_the_first_zero(units: Seq<u16>, rest: Seq<u16>)
    requires
        forall|i: int| 0 <= i < units.len() ==> #[trigger] units[i] != 0,
    ensures
        text::until_nul(units) == units,
        text::until_nul(units + seq![0u16] + rest) == units,
{
    lemma_nul_at(units, units.len());
    assert(units.take(units.len() as int) =~= units);
    let all = units + seq![0u16] + rest;
    lemma_nul_at(all, units.len());
    assert(all.take(units.len() as int) =~= units);
}

proof fn lemma_nul_at(s: Seq<u16>, n: nat)
    requires
        n <= s.len(),
        forall|i: int| 0 <= i < n ==> s[i] != 0,
        n < s.len() ==> s[n as int] == 0,
    ensures
        text::nul_index(s) == n,
    decreases s.len(),
{
    if n > 0 {
        assert forall|i: int| 0 <= i < n - 1 implies s.skip(1)[i] != 0 by {
            assert(s.skip(1)[i] == s[i + 1]);
        }
        lemma_nul_at(s.skip(1), (n - 1) as nat);
    }
}

} // verus!
