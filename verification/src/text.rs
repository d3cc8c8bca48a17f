//! Text built from numbers, literals and code units.

use crate::bytes;
use crate::common;
use vstd::prelude::*;
use vstd::slice::slice_subrange;
use vstd::string::{StrSliceExecFns, StringExecFns};

verus! {

/// Appends one character, as `String::push` documents.
pub assume_specification[ String::push ](s: &mut String, c: char)
    ensures
        final(s)@ == old(s)@.push(c),
;

/// The character with the given scalar value, as `char::from_u32` documents:
/// `None` exactly for the surrogate range and for anything past U+10FFFF.
pub assume_specification[ char::from_u32 ](i: u32) -> (r: Option<char>)
    ensures
        r is Some <==> (i <= 0xD7FF || 0xE000 <= i <= 0x10FFFF),
        r matches Some(c) ==> c == i as char,
;

// ------------------------------------------------------------------ numbers

/// The digit character for a value below sixteen, upper case.
pub open spec fn digit(d: int) -> char {
    if d == 0 { '0' } else if d == 1 { '1' } else if d == 2 { '2' } else if d == 3 { '3' }
    else if d == 4 { '4' } else if d == 5 { '5' } else if d == 6 { '6' } else if d == 7 { '7' }
    else if d == 8 { '8' } else if d == 9 { '9' } else if d == 10 { 'A' } else if d == 11 { 'B' }
    else if d == 12 { 'C' } else if d == 13 { 'D' } else if d == 14 { 'E' } else { 'F' }
}

fn digit_of(d: u64) -> (r: char)
    requires
        d < 16,
    ensures
        r == digit(d as int),
{
    match d {
        0 => '0', 1 => '1', 2 => '2', 3 => '3', 4 => '4', 5 => '5', 6 => '6', 7 => '7',
        8 => '8', 9 => '9', 10 => 'A', 11 => 'B', 12 => 'C', 13 => 'D', 14 => 'E',
        _ => 'F',
    }
}

/// `n` in base `radix`, most significant digit first, without leading zeros.
pub open spec fn digits(n: nat, radix: nat) -> Seq<char>
    decreases n,
{
    if radix < 2 || n < radix {
        seq![digit(n as int)]
    } else {
        proof {
            vstd::arithmetic::div_mod::lemma_div_decreases(n as int, radix as int);
        }
        digits(n / radix, radix).push(digit((n % radix) as int))
    }
}

/// `s` with `0` characters in front until it is at least `width` long.
pub open spec fn zero_padded(s: Seq<char>, width: nat) -> Seq<char>
    decreases width - s.len(),
{
    if s.len() >= width {
        s
    } else {
        zero_padded(seq!['0'] + s, width)
    }
}

/// `n` in decimal.
pub open spec fn dec(n: int) -> Seq<char> {
    digits(n as nat, 10)
}

/// `n` in decimal, at least `width` digits.
pub open spec fn dec_padded(n: int, width: nat) -> Seq<char> {
    zero_padded(digits(n as nat, 10), width)
}

/// `0x` and `n` in upper-case hexadecimal, at least `width` digits after the prefix.
pub open spec fn hex(n: int, width: nat) -> Seq<char> {
    seq!['0', 'x'] + zero_padded(digits(n as nat, 16), width)
}

/// `n` in upper-case hexadecimal, at least `width` digits, without a prefix.
pub open spec fn hex_bare(n: int, width: nat) -> Seq<char> {
    zero_padded(digits(n as nat, 16), width)
}

/// The lower-case form of a hexadecimal digit.
pub open spec fn small(c: char) -> char {
    match c {
        'A' => 'a',
        'B' => 'b',
        'C' => 'c',
        'D' => 'd',
        'E' => 'e',
        'F' => 'f',
        _ => c,
    }
}

/// `n` in lower-case hexadecimal, at least `width` digits, without a prefix.
pub open spec fn hex_small_bare(n: int, width: nat) -> Seq<char> {
    hex_bare(n, width).map_values(|c: char| small(c))
}

/// `0x` and `n` in lower-case hexadecimal, at least `width` digits after the prefix.
pub open spec fn hex_small(n: int, width: nat) -> Seq<char> {
    seq!['0', 'x'] + hex_small_bare(n, width)
}

/// Numbers in decimal with a comma and a space between them.
pub open spec fn joined(numbers: Seq<u64>) -> Seq<char>
    decreases numbers.len(),
{
    if numbers.len() == 0 {
        Seq::empty()
    } else {
        joined(numbers.drop_last()) + (if numbers.len() > 1 {
            seq![',', ' ']
        } else {
            Seq::empty()
        }) + dec(numbers.last() as int)
    }
}

/// A bracketed list of numbers.
pub open spec fn list(numbers: Seq<u64>) -> Seq<char> {
    seq!['['] + joined(numbers) + seq![']']
}

/// Bytes in two-digit hexadecimal, a space between them.
pub open spec fn hex_bytes(bytes: Seq<u8>) -> Seq<char>
    decreases bytes.len(),
{
    if bytes.len() == 0 {
        Seq::empty()
    } else {
        hex_bytes(bytes.drop_last()) + (if bytes.len() > 1 {
            seq![' ']
        } else {
            Seq::empty()
        }) + hex_bare(bytes.last() as int, 2)
    }
}

/// The character a byte stands for, or a dot where it stands for no printable one.
pub open spec fn ascii_char(b: u8) -> char {
    if 0x20 <= b <= 0x7E {
        b as char
    } else {
        '.'
    }
}

/// Bytes as ASCII text.
pub open spec fn ascii(bytes: Seq<u8>) -> Seq<char> {
    bytes.map_values(|b: u8| ascii_char(b))
}

/// Bytes without the spaces and zeros that end them.
pub open spec fn trimmed(bytes: Seq<u8>) -> Seq<u8>
    decreases bytes.len(),
{
    if bytes.len() > 0 && (bytes.last() == 0x20 || bytes.last() == 0) {
        trimmed(bytes.drop_last())
    } else {
        bytes
    }
}

/// The eight bytes packed little-endian into a number, as ASCII text without the
/// spaces and zeros that end them.
pub open spec fn packed_ascii(n: u64) -> Seq<char> {
    ascii(trimmed(bytes::le_bytes(n as int, 8)))
}

/// The Latin-1 character a byte stands for, in quotes, escaped where it is not
/// printable.
pub open spec fn quoted_char(b: u8) -> Seq<char> {
    if b == 0x27 || b == 0x5C {
        seq!['\'', '\\', b as char, '\'']
    } else if 0x20 <= b <= 0x7E || 0xA1 <= b && b != 0xAD {
        seq!['\'', b as char, '\'']
    } else {
        seq!['\'', '\\', 'u', '{'] + hex_small_bare(b as int, 1) + seq!['}', '\'']
    }
}

fn push_digits(s: &mut String, n: u64, radix: u64)
    requires
        2 <= radix <= 16,
    ensures
        final(s)@ == old(s)@ + digits(n as nat, radix as nat),
    decreases n,
{
    if n < radix {
        s.push(digit_of(n));
        assert(s@ =~= old(s)@ + digits(n as nat, radix as nat));
    } else {
        proof {
            vstd::arithmetic::div_mod::lemma_div_decreases(n as int, radix as int);
        }
        push_digits(s, n / radix, radix);
        let d: u64 = n % radix;
        s.push(digit_of(d));
        assert(s@ =~= old(s)@ + digits(n as nat, radix as nat));
    }
}

/// How many digits `n` has in base `radix`.
fn count_digits(n: u64, radix: u64) -> (r: u64)
    requires
        2 <= radix <= 16,
    ensures
        r == digits(n as nat, radix as nat).len(),
        r <= n + 1,
        1 <= r <= 64,
{
    let mut rest: u64 = n;
    let mut count: u64 = 1;
    let ghost mut room: nat = 63;
    proof {
        assert(n < vstd::arithmetic::power2::pow2(64)) by {
            vstd::arithmetic::power2::lemma2_to64();
        }
    }
    while rest >= radix
        invariant
            2 <= radix <= 16,
            count + digits(rest as nat, radix as nat).len() == digits(n as nat, radix as nat).len()
                + 1,
            count + room == 64,
            rest < vstd::arithmetic::power2::pow2((room + 1) as nat),
            count + rest <= n + 1,
        decreases rest,
    {
        proof {
            vstd::arithmetic::div_mod::lemma_div_decreases(rest as int, radix as int);
            vstd::arithmetic::power2::lemma2_to64();
            if room == 0 {
                assert(rest < 2);
                assert(false);
            }
            vstd::arithmetic::power2::lemma_pow2_unfold((room + 1) as nat);
            assert(rest / radix < vstd::arithmetic::power2::pow2(room)) by (nonlinear_arith)
                requires
                    rest < 2 * vstd::arithmetic::power2::pow2(room),
                    2 <= radix,
            ;
            room = (room - 1) as nat;
        }
        rest = rest / radix;
        count += 1;
    }
    count
}

fn push_zeros(s: &mut String, n: u64)
    ensures
        final(s)@ == old(s)@ + Seq::new(n as nat, |i: int| '0'),
{
    let mut i: u64 = 0;
    while i < n
        invariant
            i <= n,
            s@ =~= old(s)@ + Seq::new(i as nat, |j: int| '0'),
        decreases n - i,
    {
        s.push('0');
        i += 1;
    }
}

proof fn lemma_zero_padded(s: Seq<char>, width: nat)
    ensures
        zero_padded(s, width) =~= (if s.len() >= width {
            s
        } else {
            Seq::new((width - s.len()) as nat, |i: int| '0') + s
        }),
    decreases width - s.len(),
{
    if s.len() < width {
        lemma_zero_padded(seq!['0'] + s, width);
    }
}

fn push_padded(s: &mut String, n: u64, radix: u64, width: u64)
    requires
        2 <= radix <= 16,
    ensures
        final(s)@ == old(s)@ + zero_padded(digits(n as nat, radix as nat), width as nat),
{
    let have: u64 = count_digits(n, radix);
    if have < width {
        push_zeros(s, width - have);
    }
    push_digits(s, n, radix);
    proof {
        lemma_zero_padded(digits(n as nat, radix as nat), width as nat);
    }
    assert(s@ =~= old(s)@ + zero_padded(digits(n as nat, radix as nat), width as nat));
}

fn small_of(c: char) -> (r: char)
    ensures
        r == small(c),
{
    match c {
        'A' => 'a',
        'B' => 'b',
        'C' => 'c',
        'D' => 'd',
        'E' => 'e',
        'F' => 'f',
        _ => c,
    }
}

fn push_small(s: &mut String, n: u64, width: u64)
    ensures
        final(s)@ == old(s)@ + hex_small_bare(n as int, width as nat),
{
    let mut large: String = String::new();
    push_padded(&mut large, n, 16, width);
    let ghost want = hex_bare(n as int, width as nat);
    assert(large@ =~= want);
    let len: usize = large.as_str().unicode_len();
    let mut i: usize = 0;
    while i < len
        invariant
            i <= len,
            len == want.len(),
            large@ == want,
            s@ =~= old(s)@ + want.take(i as int).map_values(|c: char| small(c)),
        decreases len - i,
    {
        s.push(small_of(large.as_str().get_char(i)));
        i += 1;
    }
    assert(want.take(i as int) =~= want);
}

// ------------------------------------------------------------------ builder

/// Text under construction.
#[derive(Debug)]
pub struct Text {
    s: String,
}

impl View for Text {
    type V = Seq<char>;

    closed spec fn view(&self) -> Seq<char> {
        self.s@
    }
}

impl Text {
    /// Text that starts with `s`.
    pub fn of(s: &str) -> (r: Text)
        ensures
            r@ == s@,
    {
        Text { s: String::from_str(s) }
    }

    /// Append literal text.
    pub fn lit(self, s: &str) -> (r: Text)
        ensures
            r@ == self@ + s@,
    {
        let mut t = self.s;
        t.append(s);
        Text { s: t }
    }

    /// Append a number in decimal.
    pub fn dec(self, n: u64) -> (r: Text)
        ensures
            r@ == self@ + dec(n as int),
    {
        let mut t = self.s;
        push_digits(&mut t, n, 10);
        Text { s: t }
    }

    /// Append a number in decimal, zero-padded to `width` digits.
    pub fn dec_padded(self, n: u64, width: u64) -> (r: Text)
        ensures
            r@ == self@ + dec_padded(n as int, width as nat),
    {
        let mut t = self.s;
        push_padded(&mut t, n, 10, width);
        Text { s: t }
    }

    /// Append `0x` and a number in hexadecimal, zero-padded to `width` digits.
    pub fn hex(self, n: u64, width: u64) -> (r: Text)
        ensures
            r@ == self@ + hex(n as int, width as nat),
    {
        let mut t = self.s;
        t.push('0');
        t.push('x');
        push_padded(&mut t, n, 16, width);
        assert(t@ =~= self@ + hex(n as int, width as nat));
        Text { s: t }
    }

    /// Append a number in hexadecimal without a prefix, zero-padded to `width` digits.
    pub fn hex_bare(self, n: u64, width: u64) -> (r: Text)
        ensures
            r@ == self@ + hex_bare(n as int, width as nat),
    {
        let mut t = self.s;
        push_padded(&mut t, n, 16, width);
        Text { s: t }
    }

    /// Append a number in lower-case hexadecimal without a prefix, zero-padded to
    /// `width` digits.
    pub fn hex_small_bare(self, n: u64, width: u64) -> (r: Text)
        ensures
            r@ == self@ + hex_small_bare(n as int, width as nat),
    {
        let mut t = self.s;
        push_small(&mut t, n, width);
        Text { s: t }
    }

    /// Append `0x` and a number in lower-case hexadecimal, zero-padded to `width`
    /// digits.
    pub fn hex_small(self, n: u64, width: u64) -> (r: Text)
        ensures
            r@ == self@ + hex_small(n as int, width as nat),
    {
        let mut t = self.s;
        t.push('0');
        t.push('x');
        push_small(&mut t, n, width);
        assert(t@ =~= self@ + hex_small(n as int, width as nat));
        Text { s: t }
    }

    /// Append bytes in two-digit hexadecimal, a space between them.
    pub fn hex_bytes(self, bytes: &[u8]) -> (r: Text)
        ensures
            r@ == self@ + hex_bytes(bytes@),
    {
        let mut t = self.s;
        let mut i: usize = 0;
        while i < bytes.len()
            invariant
                i <= bytes@.len(),
                t@ =~= self@ + hex_bytes(bytes@.take(i as int)),
            decreases bytes@.len() - i,
        {
            assert(bytes@.take(i + 1).drop_last() =~= bytes@.take(i as int));
            if i > 0 {
                t.push(' ');
            }
            push_padded(&mut t, bytes[i] as u64, 16, 2);
            i += 1;
        }
        assert(bytes@.take(i as int) =~= bytes@);
        Text { s: t }
    }

    /// Append bytes as ASCII text.
    pub fn ascii(self, bytes: &[u8]) -> (r: Text)
        ensures
            r@ == self@ + ascii(bytes@),
    {
        let mut t = self.s;
        let mut i: usize = 0;
        while i < bytes.len()
            invariant
                i <= bytes@.len(),
                t@ =~= self@ + ascii(bytes@).take(i as int),
            decreases bytes@.len() - i,
        {
            let b: u8 = bytes[i];
            let c: char = if 0x20 <= b && b <= 0x7E {
                b as char
            } else {
                '.'
            };
            t.push(c);
            i += 1;
        }
        assert(ascii(bytes@).take(i as int) =~= ascii(bytes@));
        Text { s: t }
    }

    /// Append the eight bytes packed little-endian into a number, as ASCII text
    /// without the spaces and zeros that end them.
    pub fn packed_ascii(self, n: u64) -> (r: Text)
        ensures
            r@ == self@ + packed_ascii(n),
    {
        let b: Vec<u8> = bytes::le_vec(n, 8);
        let s: String = ascii_trimmed(&b);
        self.lit(s.as_str())
    }

    /// Append the character a byte stands for, in quotes.
    pub fn quoted_char(self, b: u8) -> (r: Text)
        ensures
            r@ == self@ + quoted_char(b),
    {
        let mut t = self.s;
        t.push('\'');
        if b == 0x27 || b == 0x5C {
            t.push('\\');
            t.push(b as char);
        } else if 0x20 <= b && b <= 0x7E || 0xA1 <= b && b != 0xAD {
            t.push(b as char);
        } else {
            t.push('\\');
            t.push('u');
            t.push('{');
            push_small(&mut t, b as u64, 1);
            t.push('}');
        }
        t.push('\'');
        assert(t@ =~= self@ + quoted_char(b));
        Text { s: t }
    }

    /// Append a list of numbers: `[1, 2, 3]`.
    pub fn list(self, numbers: &[u64]) -> (r: Text)
        ensures
            r@ == self@ + list(numbers@),
    {
        let mut t = self.s;
        t.push('[');
        let mut i: usize = 0;
        while i < numbers.len()
            invariant
                i <= numbers@.len(),
                t@ =~= self@ + seq!['['] + joined(numbers@.take(i as int)),
            decreases numbers@.len() - i,
        {
            assert(numbers@.take(i + 1).drop_last() =~= numbers@.take(i as int));
            if i > 0 {
                t.push(',');
                t.push(' ');
            }
            push_digits(&mut t, numbers[i], 10);
            i += 1;
        }
        assert(numbers@.take(i as int) =~= numbers@);
        t.push(']');
        assert(t@ =~= self@ + list(numbers@));
        Text { s: t }
    }

    /// The finished text.
    pub fn done(self) -> (r: String)
        ensures
            r@ == self@,
    {
        self.s
    }
}

/// Bytes as ASCII text, without the spaces and zeros that end them.
pub fn ascii_trimmed(bytes: &[u8]) -> (r: String)
    ensures
        r@ == ascii(trimmed(bytes@)),
{
    let mut n: usize = bytes.len();
    assert(bytes@.take(n as int) =~= bytes@);
    while n > 0 && (bytes[n - 1] == 0x20 || bytes[n - 1] == 0)
        invariant
            n <= bytes@.len(),
            trimmed(bytes@) == trimmed(bytes@.take(n as int)),
        decreases n,
    {
        assert(bytes@.take(n as int).drop_last() =~= bytes@.take(n - 1));
        n -= 1;
    }
    let part: &[u8] = slice_subrange(bytes, 0, n);
    assert(part@ =~= bytes@.take(n as int));
    proof {
        reveal_strlit("");
    }
    let t = Text::of("").ascii(part);
    assert(t@ =~= ascii(part@));
    t.done()
}

// -------------------------------------------------------------------- UTF-16

/// U+FFFD, what stands in for a code unit that is no character.
pub const REPLACEMENT: char = '\u{FFFD}';

pub open spec fn is_high_surrogate(u: u16) -> bool {
    0xD800 <= u <= 0xDBFF
}

pub open spec fn is_low_surrogate(u: u16) -> bool {
    0xDC00 <= u <= 0xDFFF
}

/// The character that one code unit stands for on its own.
pub open spec fn lone_unit(u: u16) -> char {
    if is_high_surrogate(u) || is_low_surrogate(u) {
        REPLACEMENT
    } else {
        u as char
    }
}

/// The character that a surrogate pair stands for.
pub open spec fn paired_units(high: u16, low: u16) -> char {
    (0x1_0000 + 0x400 * (high - 0xD800) + (low - 0xDC00)) as char
}

/// UTF-16 code units as text. An unpaired surrogate becomes U+FFFD: names are
/// rendered lossily and never refused.
pub open spec fn utf16_text(units: Seq<u16>) -> Seq<char>
    decreases units.len(),
{
    if units.len() == 0 {
        Seq::empty()
    } else if units.len() >= 2 && is_high_surrogate(units[0]) && is_low_surrogate(units[1]) {
        seq![paired_units(units[0], units[1])] + utf16_text(units.skip(2))
    } else {
        seq![lone_unit(units[0])] + utf16_text(units.skip(1))
    }
}

fn char_of(u: u32) -> (r: char)
    requires
        u <= 0xD7FF || 0xE000 <= u <= 0x10FFFF,
    ensures
        r == u as char,
{
    match char::from_u32(u) {
        Some(c) => c,
        None => REPLACEMENT,
    }
}

/// Decode UTF-16 code units, replacing what is not a character.
pub fn decode_utf16(units: &[u16]) -> (r: String)
    ensures
        r@ == utf16_text(units@),
{
    let mut s = String::new();
    let mut i: usize = 0;
    assert(units@.skip(0) =~= units@);
    while i < units.len()
        invariant
            i <= units@.len(),
            s@ + utf16_text(units@.skip(i as int)) =~= utf16_text(units@),
        decreases units@.len() - i,
    {
        let ghost rest = units@.skip(i as int);
        let u: u16 = units[i];
        let high: bool = 0xD800 <= u && u <= 0xDBFF;
        let surrogate: bool = 0xD800 <= u && u <= 0xDFFF;
        if high && i + 1 < units.len() && 0xDC00 <= units[i + 1] && units[i + 1] <= 0xDFFF {
            let low: u16 = units[i + 1];
            s.push(char_of(0x1_0000 + 0x400 * (u as u32 - 0xD800) + (low as u32 - 0xDC00)));
            assert(rest.skip(2) =~= units@.skip(i + 2));
            i += 2;
        } else {
            s.push(
                if surrogate {
                    REPLACEMENT
                } else {
                    char_of(u as u32)
                },
            );
            assert(rest.skip(1) =~= units@.skip(i + 1));
            i += 1;
        }
    }
    assert(units@.skip(i as int) =~= Seq::empty());
    s
}

/// The code units of one character.
pub open spec fn units_of(c: char) -> Seq<u16> {
    let v = c as int;
    if v < 0x1_0000 {
        seq![v as u16]
    } else {
        seq![
            (0xD800 + (v - 0x1_0000) / 0x400) as u16,
            (0xDC00 + (v - 0x1_0000) % 0x400) as u16,
        ]
    }
}

/// Text as UTF-16 code units.
pub open spec fn utf16_units(s: Seq<char>) -> Seq<u16>
    decreases s.len(),
{
    if s.len() == 0 {
        Seq::empty()
    } else {
        utf16_units(s.drop_last()) + units_of(s.last())
    }
}

/// Encode text as UTF-16 code units.
pub fn encode_utf16(s: &str) -> (r: Vec<u16>)
    ensures
        r@ == utf16_units(s@),
{
    let n: usize = s.unicode_len();
    let mut out: Vec<u16> = Vec::new();
    let mut i: usize = 0;
    while i < n
        invariant
            i <= n,
            n == s@.len(),
            out@ =~= utf16_units(s@.take(i as int)),
        decreases n - i,
    {
        assert(s@.take(i + 1).drop_last() =~= s@.take(i as int));
        let v: u32 = s.get_char(i) as u32;
        if v < 0x1_0000 {
            out.push(v as u16);
        } else {
            out.push((0xD800 + (v - 0x1_0000) / 0x400) as u16);
            out.push((0xDC00 + (v - 0x1_0000) % 0x400) as u16);
        }
        i += 1;
    }
    assert(s@.take(i as int) =~= s@);
    out
}

/// Decoding what was encoded gives the text back.
pub proof fn lemma_utf16_round_trip(s: Seq<char>)
    ensures
        utf16_text(utf16_units(s)) == s,
    decreases s.len(),
{
    if s.len() > 0 {
        lemma_units_from_front(s);
        lemma_utf16_round_trip(s.skip(1));
        let u = units_of(s[0]);
        let rest = utf16_units(s.skip(1));
        let all = u + rest;
        assert(utf16_units(s) =~= all);
        lemma_units_of_one(s[0]);
        if u.len() == 1 {
            assert(all.skip(1) =~= rest);
        } else {
            assert(all.skip(2) =~= rest);
        }
        assert(seq![s[0]] + s.skip(1) =~= s);
    } else {
        assert(utf16_text(utf16_units(s)) =~= s);
    }
}

proof fn lemma_units_of_one(c: char)
    ensures
        units_of(c).len() == 1 ==> lone_unit(units_of(c)[0]) == c && !is_high_surrogate(
            units_of(c)[0],
        ),
        units_of(c).len() == 2 ==> is_high_surrogate(units_of(c)[0]) && is_low_surrogate(
            units_of(c)[1],
        ) && paired_units(units_of(c)[0], units_of(c)[1]) == c,
        units_of(c).len() == 1 || units_of(c).len() == 2,
{
}

proof fn lemma_units_from_front(s: Seq<char>)
    requires
        s.len() > 0,
    ensures
        utf16_units(s) =~= units_of(s[0]) + utf16_units(s.skip(1)),
    decreases s.len(),
{
    if s.len() == 1 {
        assert(s.drop_last() =~= Seq::empty());
        assert(s.skip(1) =~= Seq::empty());
    } else {
        lemma_units_from_front(s.drop_last());
        assert(s.drop_last().skip(1) =~= s.skip(1).drop_last());
        assert(s.skip(1).last() == s.last());
    }
}

/// The first zero of `s`, or its length where there is none.
pub open spec fn nul_index(s: Seq<u16>) -> nat
    decreases s.len(),
{
    if s.len() == 0 || s[0] == 0 {
        0
    } else {
        1 + nul_index(s.skip(1))
    }
}

/// The units in front of the terminating NUL.
pub open spec fn until_nul(s: Seq<u16>) -> Seq<u16> {
    s.take(nul_index(s) as int)
}

/// `n` little-endian code units at `off`.
pub open spec fn units_in(s: Seq<u8>, off: int, n: nat) -> Seq<u16> {
    Seq::new(n, |j: int| common::le16(s, off + 2 * j))
}

/// Read `n` little-endian code units at `off`.
pub fn units_at(s: &[u8], off: usize, n: usize) -> (r: Vec<u16>)
    requires
        off + 2 * n <= s@.len(),
    ensures
        r@ == units_in(s@, off as int, n as nat),
{
    let mut out: Vec<u16> = Vec::new();
    let mut j: usize = 0;
    let end: usize = s.len();
    while j < n
        invariant
            j <= n,
            off + 2 * n <= end,
            end == s@.len(),
            out@ =~= units_in(s@, off as int, j as nat),
        decreases n - j,
    {
        let k: usize = off + 2 * j;
        out.push(s[k] as u16 + 0x100 * (s[k + 1] as u16));
        j += 1;
    }
    out
}

/// The first zero unit, or the length where there is none.
pub fn nul_at(s: &[u16]) -> (r: usize)
    ensures
        r == nul_index(s@),
        r <= s@.len(),
{
    let mut i: usize = 0;
    assert(s@.skip(0) =~= s@);
    while i < s.len()
        invariant
            i <= s@.len(),
            nul_index(s@) == i + nul_index(s@.skip(i as int)),
        decreases s@.len() - i,
    {
        if s[i] == 0 {
            return i;
        }
        assert(s@.skip(i as int).skip(1) =~= s@.skip(i + 1));
        i += 1;
    }
    i
}

/// Decode the units in front of the terminating NUL.
pub fn decode_until_nul(units: &[u16]) -> (r: String)
    ensures
        r@ == utf16_text(until_nul(units@)),
{
    let n: usize = nul_at(units);
    decode_utf16(slice_subrange(units, 0, n))
}

/// How many characters a string has.
pub fn char_count(s: &String) -> (r: usize)
    ensures
        r == s@.len(),
{
    s.as_str().unicode_len()
}

/// Character `i` of a string.
pub fn char_at(s: &String, i: usize) -> (r: char)
    requires
        i < s@.len(),
    ensures
        r == s@[i as int],
{
    s.as_str().get_char(i)
}

/// `word` stands at character `i` of `s`.
pub open spec fn stands_at(s: Seq<char>, word: Seq<char>, i: int) -> bool {
    0 <= i && i + word.len() <= s.len() && s.subrange(i, i + word.len()) == word
}

/// `word` stands somewhere in `s`.
pub open spec fn holds(s: Seq<char>, word: Seq<char>) -> bool {
    exists|i: int| stands_at(s, word, i)
}

fn is_at(s: &str, word: &str, i: usize) -> (r: bool)
    requires
        i + word@.len() <= s@.len(),
    ensures
        r == stands_at(s@, word@, i as int),
{
    let len: usize = s.unicode_len();
    let n: usize = word.unicode_len();
    let mut j: usize = 0;
    while j < n
        invariant
            j <= n,
            n == word@.len(),
            len == s@.len(),
            i + n <= len,
            forall|k: int| 0 <= k < j ==> s@[i + k] == #[trigger] word@[k],
        decreases n - j,
    {
        if s.get_char(i + j) != word.get_char(j) {
            assert(s@.subrange(i as int, i + n)[j as int] != word@[j as int]);
            return false;
        }
        j += 1;
    }
    assert(s@.subrange(i as int, i + n) =~= word@);
    true
}

/// True when `word` stands somewhere in `s`.
pub fn is_holding(s: &str, word: &str) -> (r: bool)
    ensures
        r == holds(s@, word@),
{
    let len: usize = s.unicode_len();
    let n: usize = word.unicode_len();
    if n > len {
        return false;
    }
    let mut i: usize = 0;
    while i <= len - n
        invariant
            len == s@.len(),
            n == word@.len(),
            n <= len,
            i <= len - n + 1,
            forall|k: int| 0 <= k < i ==> !stands_at(s@, word@, k),
        decreases len + 1 - i,
    {
        if is_at(s, word, i) {
            return true;
        }
        if i == len - n {
            return false;
        }
        i += 1;
    }
    false
}

/// The first `n` characters, or all of them where there are fewer.
pub open spec fn first_chars(s: Seq<char>, n: int) -> Seq<char> {
    if n < s.len() {
        s.take(n)
    } else {
        s
    }
}

/// The first `n` characters of a string.
pub fn truncate_chars(s: &str, n: usize) -> (r: String)
    ensures
        r@ == first_chars(s@, n as int),
{
    let len: usize = s.unicode_len();
    let keep: usize = if n < len { n } else { len };
    let mut out = String::new();
    let mut i: usize = 0;
    while i < keep
        invariant
            i <= keep <= s@.len(),
            out@ =~= s@.take(i as int),
        decreases keep - i,
    {
        out.push(s.get_char(i));
        i += 1;
    }
    assert(out@ =~= first_chars(s@, n as int));
    out
}

} // verus!
