//! Numbers as text: decimal, zero-padded and hexadecimal.

use vstd::prelude::*;
use vstd::string::*;

use crate::text::{chars_of, string_from};

verus! {

/// The character of a decimal or hexadecimal digit (lower case).
pub open spec fn digit(d: int) -> char {
    if d == 0 {
        '0'
    } else if d == 1 {
        '1'
    } else if d == 2 {
        '2'
    } else if d == 3 {
        '3'
    } else if d == 4 {
        '4'
    } else if d == 5 {
        '5'
    } else if d == 6 {
        '6'
    } else if d == 7 {
        '7'
    } else if d == 8 {
        '8'
    } else if d == 9 {
        '9'
    } else if d == 10 {
        'a'
    } else if d == 11 {
        'b'
    } else if d == 12 {
        'c'
    } else if d == 13 {
        'd'
    } else if d == 14 {
        'e'
    } else {
        'f'
    }
}

/// The character of the digit `d`.
pub fn digit_char(d: u8) -> (r: char)
    requires
        d < 16,
    ensures
        r == digit(d as int),
{
    match d {
        0 => '0',
        1 => '1',
        2 => '2',
        3 => '3',
        4 => '4',
        5 => '5',
        6 => '6',
        7 => '7',
        8 => '8',
        9 => '9',
        10 => 'a',
        11 => 'b',
        12 => 'c',
        13 => 'd',
        14 => 'e',
        _ => 'f',
    }
}

/// The decimal digits of `n`.
pub open spec fn dec(n: nat) -> Seq<char>
    decreases n,
{
    if n < 10 {
        seq![digit(n as int)]
    } else {
        dec(n / 10).push(digit((n % 10) as int))
    }
}

/// The decimal text of an integer, with a minus sign below zero.
pub open spec fn dec_int(n: int) -> Seq<char> {
    if n < 0 {
        seq!['-'] + dec((-n) as nat)
    } else {
        dec(n as nat)
    }
}

/// `s` with zeros in front up to `width` characters.
pub open spec fn zero_pad(s: Seq<char>, width: int) -> Seq<char> {
    if s.len() >= width {
        s
    } else {
        Seq::new((width - s.len()) as nat, |i: int| '0') + s
    }
}

/// The integer `n` in at least `width` characters, zeros after the sign.
pub open spec fn pad_int(n: int, width: int) -> Seq<char> {
    if n < 0 {
        seq!['-'] + zero_pad(dec((-n) as nat), width - 1)
    } else {
        zero_pad(dec(n as nat), width)
    }
}

fn dec_chars(n: u64) -> (r: Vec<char>)
    ensures
        r@ == dec(n as nat),
    decreases n,
{
    if n < 10 {
        let mut out: Vec<char> = Vec::new();
        out.push(digit_char(n as u8));
        assert(out@ =~= dec(n as nat));
        out
    } else {
        let mut out = dec_chars(n / 10);
        out.push(digit_char((n % 10) as u8));
        out
    }
}

/// `n` in decimal.
pub fn dec_text(n: u64) -> (r: String)
    ensures
        r@ == dec(n as nat),
{
    string_from(&dec_chars(n))
}

/// A count in decimal.
pub fn count_text(n: usize) -> (r: String)
    ensures
        r@ == dec(n as nat),
{
    dec_text(n as u64)
}

fn magnitude(n: i64) -> (r: u64)
    ensures
        r == (if n < 0 {
            -n
        } else {
            n as int
        }),
{
    if n < 0 {
        if n == i64::MIN {
            9223372036854775808u64
        } else {
            (-n) as u64
        }
    } else {
        n as u64
    }
}

/// `n` in decimal, signed.
pub fn int_text(n: i64) -> (r: String)
    ensures
        r@ == dec_int(n as int),
{
    let mut out = String::new();
    if n < 0 {
        out.push('-');
    }
    assert(out@ =~= if n < 0 {
        seq!['-']
    } else {
        Seq::empty()
    });
    out.append(dec_text(magnitude(n)).as_str());
    assert(out@ =~= dec_int(n as int));
    out
}

/// `n` in decimal with zeros in front up to `width` characters, as `{:0width}`
/// writes it.
pub fn pad_text(n: i64, width: usize) -> (r: String)
    requires
        width >= 1,
    ensures
        r@ == pad_int(n as int, width as int),
{
    let digits = dec_chars(magnitude(n));
    let mut out = String::new();
    let mut target: usize = width;
    if n < 0 {
        out.push('-');
        target = width - 1;
    }
    let ghost sign = out@;
    assert(sign =~= if n < 0 {
        seq!['-']
    } else {
        Seq::empty()
    });
    let mut have: usize = digits.len();
    while have < target
        invariant
            digits@.len() <= have,
            have <= target || have == digits@.len(),
            out@ == sign + Seq::new((have - digits@.len()) as nat, |i: int| '0'),
        decreases target - have,
    {
        out.push('0');
        have += 1;
        assert(out@ =~= sign + Seq::new((have - digits@.len()) as nat, |i: int| '0'));
    }
    out.append(string_from(&digits).as_str());
    assert(out@ =~= pad_int(n as int, width as int));
    out
}

/// The value of an unsigned decimal numeral.
pub open spec fn dec_value(s: Seq<char>) -> Option<nat>
    decreases s.len(),
{
    if s.len() == 0 {
        Some(0)
    } else if !('0' <= s.last() <= '9') {
        None
    } else {
        match dec_value(s.drop_last()) {
            Some(v) => Some((v * 10 + (s.last() as u32 - '0' as u32)) as nat),
            None => None,
        }
    }
}

/// The number that a text denotes to `str::parse` of an unsigned type: an
/// optional plus sign, then at least one digit.
pub open spec fn parse_unsigned(s: Seq<char>) -> Option<nat> {
    let digits = if s.len() > 0 && s[0] == '+' {
        s.skip(1)
    } else {
        s
    };
    if digits.len() == 0 {
        None
    } else {
        dec_value(digits)
    }
}

/// A prefix of a numeral denotes no more than the numeral; where it is none,
/// the whole is none.
proof fn lemma_dec_prefix(s: Seq<char>, k: int)
    requires
        0 <= k <= s.len(),
    ensures
        dec_value(s) matches Some(v) ==> dec_value(s.take(k)) matches Some(w) && w <= v,
    decreases s.len(),
{
    if k == s.len() {
        assert(s.take(k) =~= s);
    } else if s.len() > 0 {
        lemma_dec_prefix(s.drop_last(), k);
        assert(s.drop_last().take(k) =~= s.take(k));
    }
}

/// `str::parse::<usize>`: the number, or nothing where the text is no numeral
/// or the number does not fit.
pub fn parse_usize(s: &str) -> (r: Option<usize>)
    ensures
        r == match parse_unsigned(s@) {
            Some(v) => if v <= usize::MAX {
                Some(v as usize)
            } else {
                None
            },
            None => None,
        },
{
    let cs = chars_of(s);
    let n: usize = cs.len();
    let mut from: usize = 0;
    if n > 0 && cs[0] == '+' {
        from = 1;
    }
    let ghost digits = cs@.skip(from as int);
    assert(from == 0 ==> digits =~= s@);
    if from == n {
        return None;
    }
    let mut value: usize = 0;
    let mut i: usize = from;
    assert(digits.take(0) =~= Seq::<char>::empty());
    while i < n
        invariant
            from <= i <= n,
            n == cs@.len(),
            digits == cs@.skip(from as int),
            parse_unsigned(s@) == dec_value(digits),
            dec_value(digits.take(i - from)) == Some(value as nat),
        decreases n - i,
    {
        let c = cs[i];
        let ghost next = digits.take(i + 1 - from);
        proof {
            assert(next.drop_last() =~= digits.take(i - from));
            assert(next.last() == c);
            lemma_dec_prefix(digits, i + 1 - from);
        }
        if c < '0' || c > '9' {
            return None;
        }
        let d: usize = (c as u32 - '0' as u32) as usize;
        if value > (usize::MAX - d) / 10 {
            assert(value * 10 + d > usize::MAX);
            return None;
        }
        value = value * 10 + d;
        i += 1;
    }
    assert(digits.take(n - from) =~= digits);
    Some(value)
}

/// Each byte as two lower-case hexadecimal digits.
pub open spec fn hex_of(bytes: Seq<u8>) -> Seq<char>
    decreases bytes.len(),
{
    if bytes.len() == 0 {
        Seq::empty()
    } else {
        hex_of(bytes.drop_last()).push(digit(bytes.last() as int / 16)).push(
            digit(bytes.last() as int % 16),
        )
    }
}

/// The bytes in lower-case hexadecimal, two digits each.
pub fn hex_text(bytes: &Vec<u8>) -> (r: String)
    ensures
        r@ == hex_of(bytes@),
{
    let mut out = String::new();
    let mut i: usize = 0;
    while i < bytes.len()
        invariant
            i <= bytes@.len(),
            out@ == hex_of(bytes@.take(i as int)),
        decreases bytes@.len() - i,
    {
        let b = bytes[i];
        assert(bytes@.take(i + 1).drop_last() =~= bytes@.take(i as int));
        out.push(digit_char(b / 16));
        out.push(digit_char(b % 16));
        i += 1;
    }
    assert(bytes@.take(bytes@.len() as int) =~= bytes@);
    out
}

} // verus!
