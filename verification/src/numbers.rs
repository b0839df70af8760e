//! Reading unsigned and signed numbers from text, and writing numbers in
//! hexadecimal and with leading zeros, as the tools show them.
use vstd::prelude::*;

use crate::errors::decimal;
use crate::text::push_char;

verus! {

/// The value of `c` as a digit: `0`-`9`, then letters of either case from
/// ten up; 36 for a character that is a digit in no radix.
pub open spec fn digit_value(c: char) -> nat {
    let u = c as u32;
    if 48 <= u <= 57 {
        (u - 48) as nat
    } else if 97 <= u <= 122 {
        (u - 87) as nat
    } else if 65 <= u <= 90 {
        (u - 55) as nat
    } else {
        36
    }
}

/// The value of the digits `s` in `radix`, most significant first.
pub open spec fn digits_value(s: Seq<char>, radix: nat) -> nat
    decreases s.len(),
{
    if s.len() == 0 {
        0
    } else {
        digits_value(s.drop_last(), radix) * radix + digit_value(s.last())
    }
}

/// Whether every character of `s` is a digit in `radix`.
pub open spec fn all_digits(s: Seq<char>, radix: nat) -> bool {
    forall|i: int| 0 <= i < s.len() ==> #[trigger] digit_value(s[i]) < radix
}

/// The digits of an unsigned number: the text after an optional `+`.
pub open spec fn unsigned_body(s: Seq<char>) -> Seq<char> {
    if s.len() > 0 && s[0] == '+' {
        s.drop_first()
    } else {
        s
    }
}

/// The number that `s` writes in `radix`, where it is one no larger than
/// `max`: an optional `+` and at least one digit, nothing else.
pub open spec fn parse_unsigned(s: Seq<char>, radix: nat, max: nat) -> Option<nat> {
    let d = unsigned_body(s);
    if d.len() > 0 && all_digits(d, radix) && digits_value(d, radix) <= max {
        Some(digits_value(d, radix))
    } else {
        None
    }
}

/// The number that `s` writes in decimal, where it is one from `-(max + 1)`
/// to `max`: an optional sign and at least one digit, nothing else.
pub open spec fn parse_signed(s: Seq<char>, max: nat) -> Option<int> {
    if s.len() > 0 && s[0] == '-' {
        match parse_unsigned(s.drop_first(), 10, max + 1) {
            Some(v) => if s.len() > 1 && s[1] != '+' { Some(-v) } else { None },
            None => None,
        }
    } else {
        match parse_unsigned(s, 10, max) {
            Some(v) => Some(v as int),
            None => None,
        }
    }
}

/// The character for a hexadecimal digit, in lower case.
pub open spec fn hex_char(d: nat) -> char {
    if d < 10 {
        (48 + d) as char
    } else {
        (87 + d) as char
    }
}

/// The hexadecimal digits of `n`, in lower case.
pub open spec fn hex(n: nat) -> Seq<char>
    decreases n,
{
    if n < 16 {
        seq![hex_char(n)]
    } else {
        hex(n / 16).push(hex_char(n % 16))
    }
}

/// `s` with zeros in front up to `width` characters.
pub open spec fn zero_padded(s: Seq<char>, width: nat) -> Seq<char> {
    if s.len() < width {
        Seq::new((width - s.len()) as nat, |i: int| '0') + s
    } else {
        s
    }
}

/// The value of `c` as a digit (see [`digit_value`]).
pub fn digit_of_char(c: char) -> (r: u32)
    ensures
        r == digit_value(c),
{
    let u = c as u32;
    if 48 <= u && u <= 57 {
        u - 48
    } else if 97 <= u && u <= 122 {
        u - 87
    } else if 65 <= u && u <= 90 {
        u - 55
    } else {
        36
    }
}

/// The character for hexadecimal digit `d`.
pub fn hex_char_of(d: u32) -> (c: char)
    requires
        d < 16,
    ensures
        c == hex_char(d as nat),
{
    if d < 10 {
        char_from_ascii((48 + d) as u8)
    } else {
        char_from_ascii((87 + d) as u8)
    }
}

/// The character with ASCII code `b`.
fn char_from_ascii(b: u8) -> (c: char)
    requires
        b < 128,
    ensures
        c == b as char,
{
    b as char
}

/// A prefix of a digit string has no larger a value than the whole string.
pub proof fn lemma_digits_prefix_le(d: Seq<char>, k: int, radix: nat)
    requires
        0 <= k <= d.len(),
        radix >= 1,
    ensures
        digits_value(d.take(k), radix) <= digits_value(d, radix),
    decreases d.len(),
{
    if k < d.len() {
        let p = d.drop_last();
        assert(p.take(k) =~= d.take(k));
        lemma_digits_prefix_le(p, k, radix);
        let v = digits_value(p, radix);
        assert(v * radix >= v) by (nonlinear_arith)
            requires
                radix >= 1,
        ;
    } else {
        assert(d.take(k) =~= d);
    }
}

/// Reads the number that `s` writes in `radix`, as `from_str_radix` does
/// for an unsigned type whose largest value is `max`.
pub fn parse_unsigned_chars(s: &[char], radix: u32, max: u32) -> (r: Option<u32>)
    requires
        2 <= radix <= 36,
    ensures
        match r {
            Some(v) => parse_unsigned(s@, radix as nat, max as nat) == Some(v as nat),
            None => parse_unsigned(s@, radix as nat, max as nat) is None,
        },
{
    let start: usize = if s.len() > 0 && s[0] == '+' {
        1
    } else {
        0
    };
    let ghost d = unsigned_body(s@);
    assert(d =~= s@.subrange(start as int, s@.len() as int));
    if start == s.len() {
        return None;
    }
    let mut acc: u64 = 0;
    let mut i: usize = start;
    while i < s.len()
        invariant
            start <= i <= s@.len(),
            d == s@.subrange(start as int, s@.len() as int),
            d == unsigned_body(s@),
            d.len() > 0,
            2 <= radix <= 36,
            acc == digits_value(d.take(i - start), radix as nat),
            acc <= max,
            all_digits(d.take(i - start), radix as nat),
        decreases s.len() - i,
    {
        let c = s[i];
        let v = digit_of_char(c);
        let ghost t = d.take(i - start + 1);
        assert(t.drop_last() =~= d.take(i - start));
        assert(t.last() == c);
        if v >= radix {
            assert(d[i - start] == c);
            assert(digit_value(d[i - start]) >= radix);
            assert(!all_digits(d, radix as nat));
            return None;
        }
        assert(acc * (radix as u64) <= 36 * 0xffff_ffffu64) by (nonlinear_arith)
            requires
                acc <= 0xffff_ffffu64,
                radix <= 36,
        ;
        let next: u64 = acc * (radix as u64) + (v as u64);
        assert(next == digits_value(t, radix as nat));
        if next > max as u64 {
            proof {
                lemma_digits_prefix_le(d, i - start + 1, radix as nat);
                assert(digits_value(d, radix as nat) > max);
            }
            return None;
        }
        assert forall|j: int| 0 <= j < t.len() implies #[trigger] digit_value(t[j]) < radix by {
            if j < t.len() - 1 {
                assert(t[j] == d.take(i - start)[j]);
            }
        }
        acc = next;
        i = i + 1;
    }
    assert(d.take(i - start) =~= d);
    Some(acc as u32)
}

/// The characters of `s` from `from` on.
fn tail_chars(s: &[char], from: usize) -> (r: Vec<char>)
    requires
        from <= s@.len(),
    ensures
        r@ == s@.subrange(from as int, s@.len() as int),
{
    crate::text::sub_chars(s, from, s.len())
}

/// Reads a decimal `i16` as `str::parse` does: an optional sign and digits.
pub fn parse_i16(s: &[char]) -> (r: Option<i16>)
    ensures
        match r {
            Some(v) => parse_signed(s@, 32767) == Some(v as int),
            None => parse_signed(s@, 32767) is None,
        },
{
    if s.len() > 0 && s[0] == '-' {
        if s.len() > 1 && s[1] == '+' {
            return None;
        }
        let rest = tail_chars(s, 1);
        assert(rest@ =~= s@.drop_first());
        match parse_unsigned_chars(rest.as_slice(), 10, 32768) {
            Some(v) => Some((0 - (v as i32)) as i16),
            None => None,
        }
    } else {
        match parse_unsigned_chars(s, 10, 32767) {
            Some(v) => Some(v as i16),
            None => None,
        }
    }
}

/// The hexadecimal digits of `n`.
pub fn hex_chars(n: u32) -> (r: Vec<char>)
    ensures
        r@ == hex(n as nat),
    decreases n,
{
    if n < 16 {
        let mut v: Vec<char> = Vec::new();
        v.push(hex_char_of(n));
        assert(v@ =~= seq![hex_char(n as nat)]);
        v
    } else {
        let mut v = hex_chars(n / 16);
        v.push(hex_char_of(n % 16));
        v
    }
}

/// `v` with zeros in front up to `width` characters.
pub fn zero_pad(v: Vec<char>, width: usize) -> (r: Vec<char>)
    ensures
        r@ == zero_padded(v@, width as nat),
{
    if v.len() >= width {
        return v;
    }
    let mut out: Vec<char> = Vec::new();
    let fill = width - v.len();
    let mut k: usize = 0;
    while k < fill
        invariant
            k <= fill,
            out@ == Seq::new(k as nat, |i: int| '0'),
        decreases fill - k,
    {
        out.push('0');
        assert(out@ =~= Seq::new((k + 1) as nat, |i: int| '0'));
        k = k + 1;
    }
    let ghost zeros = out@;
    let mut i: usize = 0;
    while i < v.len()
        invariant
            i <= v@.len(),
            out@ == zeros + v@.take(i as int),
        decreases v.len() - i,
    {
        out.push(v[i]);
        assert(v@.take(i as int + 1) =~= v@.take(i as int).push(v@[i as int]));
        i = i + 1;
    }
    assert(v@.take(v@.len() as int) =~= v@);
    out
}

/// Writes the characters of `v` onto the end of `s`.
pub fn push_chars(s: &mut String, v: &[char])
    ensures
        final(s)@ == old(s)@ + v@,
{
    let mut i: usize = 0;
    while i < v.len()
        invariant
            i <= v@.len(),
            s@ == old(s)@ + v@.take(i as int),
        decreases v.len() - i,
    {
        push_char(s, v[i]);
        assert(v@.take(i as int + 1) =~= v@.take(i as int).push(v@[i as int]));
        i = i + 1;
    }
    assert(v@.take(v@.len() as int) =~= v@);
}

/// The decimal digits of a number have one character below ten and more from ten on.
pub proof fn lemma_decimal_len(n: nat)
    ensures
        n < 10 ==> decimal(n).len() == 1,
        n >= 10 ==> decimal(n).len() >= 2,
    decreases n,
{
    if n >= 10 {
        lemma_decimal_len(n / 10);
    }
}

/// The hexadecimal digits of `n` are digits in radix 16 that read back as
/// `n`, and there is at least one of them.
pub proof fn lemma_hex_reads_back(n: nat)
    ensures
        hex(n).len() >= 1,
        all_digits(hex(n), 16),
        digits_value(hex(n), 16) == n,
        digit_value(hex(n)[0]) < 16,
    decreases n,
{
    if n < 16 {
        assert(digit_value(hex_char(n)) == n);
        assert(hex(n).drop_last() =~= Seq::<char>::empty());
        assert(digits_value(Seq::<char>::empty(), 16) == 0);
        assert(hex(n).last() == hex_char(n));
        assert(digits_value(hex(n), 16) == digits_value(hex(n).drop_last(), 16) * 16 + digit_value(hex(n).last()));
    } else {
        lemma_hex_reads_back(n / 16);
        let h = hex(n);
        assert(h.drop_last() =~= hex(n / 16));
        assert(digit_value(hex_char(n % 16)) == n % 16);
        assert forall|i: int| 0 <= i < h.len() implies #[trigger] digit_value(h[i]) < 16 by {
            if i < h.len() - 1 {
                assert(h[i] == hex(n / 16)[i]);
            }
        }
        assert(h[0] == hex(n / 16)[0]);
        assert(h.last() == hex_char(n % 16));
        assert(digits_value(h, 16) == digits_value(hex(n / 16), 16) * 16 + n % 16);
        assert((n / 16) * 16 + n % 16 == n);
    }
}

} // verus!
