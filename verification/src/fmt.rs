//! Text building: decimal and hexadecimal rendering of integers.

use vstd::prelude::*;

verus! {

/// The digit character for `d` (uppercase for 10..15).
pub open spec fn digit_char(d: nat) -> char {
    if d == 0 { '0' } else if d == 1 { '1' } else if d == 2 { '2' } else if d == 3 { '3' }
    else if d == 4 { '4' } else if d == 5 { '5' } else if d == 6 { '6' } else if d == 7 { '7' }
    else if d == 8 { '8' } else if d == 9 { '9' } else if d == 10 { 'A' } else if d == 11 { 'B' }
    else if d == 12 { 'C' } else if d == 13 { 'D' } else if d == 14 { 'E' } else { 'F' }
}

/// The digits of `n` in base `base`, most significant first, without
/// leading zeros (zero is "0").
pub open spec fn digits(n: nat, base: nat) -> Seq<char>
    decreases n,
{
    if base < 2 || n < base {
        seq![digit_char(n)]
    } else {
        proof {
            vstd::arithmetic::div_mod::lemma_div_decreases(n as int, base as int);
        }
        digits(n / base, base).push(digit_char(n % base))
    }
}

/// Decimal text of an integer, with a leading '-' for negatives.
pub open spec fn dec(i: int) -> Seq<char> {
    if i < 0 {
        seq!['-'] + digits((-i) as nat, 10)
    } else {
        digits(i as nat, 10)
    }
}

/// Uppercase hexadecimal text of `n`, zero-padded to at least four digits.
pub open spec fn hex4(n: nat) -> Seq<char> {
    let d = digits(n, 16);
    if d.len() < 4 {
        Seq::new((4 - d.len()) as nat, |_i: int| '0') + d
    } else {
        d
    }
}

/// Appends a character.
/// Trusted: `String::push` appends the character at the end of the string.
#[verifier::external_body]
pub(crate) fn push_char(s: &mut String, c: char)
    ensures
        final(s)@ == old(s)@.push(c),
{
    s.push(c)
}

/// The character of a UTF-16 code unit outside the surrogate range.
pub open spec fn unit_char(u: u16) -> char {
    u as char
}

/// The character of a surrogate pair.
pub open spec fn pair_char(hi: u16, lo: u16) -> char {
    ((((hi - 0xD800) as int) * 0x400 + ((lo - 0xDC00) as int)) + 0x10000) as char
}

pub open spec fn is_high_surrogate(u: u16) -> bool {
    0xD800 <= u < 0xDC00
}

pub open spec fn is_low_surrogate(u: u16) -> bool {
    0xDC00 <= u < 0xE000
}

/// UTF-16 decoded with every unpaired surrogate replaced by U+FFFD.
pub open spec fn utf16_lossy(u: Seq<u16>) -> Seq<char>
    decreases u.len(),
{
    if u.len() == 0 {
        Seq::empty()
    } else if u.len() >= 2 && is_high_surrogate(u[0]) && is_low_surrogate(u[1]) {
        seq![pair_char(u[0], u[1])] + utf16_lossy(u.skip(2))
    } else if is_high_surrogate(u[0]) || is_low_surrogate(u[0]) {
        seq!['\u{FFFD}'] + utf16_lossy(u.skip(1))
    } else {
        seq![unit_char(u[0])] + utf16_lossy(u.skip(1))
    }
}

/// The text of UTF-16 code units.
/// Trusted: `String::from_utf16_lossy` decodes UTF-16, a high surrogate
/// followed by a low one making one character, and replaces each unpaired
/// surrogate by U+FFFD.
#[verifier::external_body]
pub(crate) fn utf16_text(units: &[u16]) -> (r: String)
    ensures
        r@ == utf16_lossy(units@),
{
    String::from_utf16_lossy(units)
}

/// Appends a string.
pub fn push_str(s: &mut String, t: &str)
    ensures
        final(s)@ == old(s)@ + t@,
{
    s.append(t);
}

fn digit(d: u64) -> (c: char)
    requires
        d < 16,
    ensures
        c == digit_char(d as nat),
{
    if d == 0 { '0' } else if d == 1 { '1' } else if d == 2 { '2' } else if d == 3 { '3' }
    else if d == 4 { '4' } else if d == 5 { '5' } else if d == 6 { '6' } else if d == 7 { '7' }
    else if d == 8 { '8' } else if d == 9 { '9' } else if d == 10 { 'A' } else if d == 11 { 'B' }
    else if d == 12 { 'C' } else if d == 13 { 'D' } else if d == 14 { 'E' } else { 'F' }
}

/// Appends the digits of `n` in base `base`.
pub fn push_digits(s: &mut String, n: u64, base: u64)
    requires
        2 <= base <= 16,
    ensures
        final(s)@ == old(s)@ + digits(n as nat, base as nat),
    decreases n,
{
    if n < base {
        push_char(s, digit(n));
        proof {
            assert(seq![digit_char(n as nat)] == digits(n as nat, base as nat));
        }
    } else {
        proof {
            vstd::arithmetic::div_mod::lemma_div_decreases(n as int, base as int);
        }
        push_digits(s, n / base, base);
        push_char(s, digit(n % base));
    }
}

/// Appends the decimal text of `i`.
pub fn push_dec(s: &mut String, i: i64)
    ensures
        final(s)@ == old(s)@ + dec(i as int),
{
    if i < 0 {
        push_char(s, '-');
        let m: u64 = (0i128 - (i as i128)) as u64;
        push_digits(s, m, 10);
        proof {
            assert(final(s)@ =~= old(s)@ + dec(i as int)) by {
                assert(m as nat == (-i) as nat);
            }
        }
    } else {
        push_digits(s, i as u64, 10);
    }
}

/// Appends the decimal text of `n`.
pub fn push_dec_u64(s: &mut String, n: u64)
    ensures
        final(s)@ == old(s)@ + dec(n as int),
{
    push_digits(s, n, 10);
}

proof fn lemma_digits_len(n: nat, base: nat)
    requires
        2 <= base,
    ensures
        digits(n, base).len() >= 1,
        n < base * base * base ==> digits(n, base).len() <= 3,
    decreases n,
{
    if n >= base {
        vstd::arithmetic::div_mod::lemma_div_decreases(n as int, base as int);
        lemma_digits_len(n / base, base);
        if n < base * base * base {
            assert(n / base < base * base) by (nonlinear_arith)
                requires
                    n < base * base * base,
                    2 <= base,
            ;
            if n / base >= base {
                lemma_digits_len(n / base / base, base);
                assert(n / base / base < base) by (nonlinear_arith)
                    requires
                        n / base < base * base,
                        2 <= base,
                ;
            }
        }
    }
}

/// Appends `n` in uppercase hexadecimal, zero-padded to four digits.
pub fn push_hex4(s: &mut String, n: u64)
    ensures
        final(s)@ == old(s)@ + hex4(n as nat),
{
    let ghost d = digits(n as nat, 16);
    proof {
        lemma_digits_len(n as nat, 16);
    }
    let width: usize = if n < 0x10 {
        1
    } else if n < 0x100 {
        2
    } else if n < 0x1000 {
        3
    } else {
        4
    };
    proof {
        if n >= 0x10 {
            lemma_digits_len(n as nat / 16, 16);
            if n >= 0x100 {
                lemma_digits_len(n as nat / 16 / 16, 16);
                if n >= 0x1000 {
                    lemma_digits_len(n as nat / 16 / 16 / 16, 16);
                }
            }
        }
        assert(width < 4 ==> d.len() == width);
        assert(width == 4 ==> d.len() >= 4);
    }
    let ghost start = s@;
    let mut k: usize = width;
    while k < 4
        invariant
            width <= k <= 4,
            s@ == start + Seq::new((k - width) as nat, |_i: int| '0'),
        decreases 4 - k,
    {
        push_char(s, '0');
        proof {
            assert(Seq::new((k + 1 - width) as nat, |_i: int| '0') =~= Seq::new(
                (k - width) as nat,
                |_i: int| '0',
            ).push('0'));
        }
        k = k + 1;
    }
    push_digits(s, n, 16);
    proof {
        if width < 4 {
            assert(hex4(n as nat) == Seq::new((4 - d.len()) as nat, |_i: int| '0') + d);
            assert(s@ =~= start + hex4(n as nat));
        } else {
            assert(Seq::new(0, |_i: int| '0') + d =~= d);
            assert(s@ =~= start + hex4(n as nat));
        }
    }
}

} // verus!
