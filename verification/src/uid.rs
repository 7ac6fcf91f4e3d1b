//! Universally unique identifiers: their value, their two spellings, and the
//! `uuid` crate that makes and reads them.

use vstd::prelude::*;

use crate::number::digit;
use crate::text::ascii_lower;

verus! {

/// A 128-bit identifier.
#[derive(Clone, Copy, Debug, PartialEq, Eq, Structural)]
pub struct Uuid {
    pub value: u128,
}

/// `uuid::Error`, the reason a text is no identifier.
#[verifier::external_type_specification]
#[verifier::external_body]
pub struct ExUuidError(uuid::Error);

// ---------------------------------------------------------------------------
// Spelling
// ---------------------------------------------------------------------------

/// The lowest `n` hexadecimal digits of `v`, most significant first.
pub open spec fn hex_digits(v: int, n: nat) -> Seq<char>
    decreases n,
{
    if n == 0 {
        Seq::empty()
    } else {
        hex_digits(v / 16, (n - 1) as nat).push(digit(v % 16))
    }
}

/// 32 lower-case hexadecimal digits.
pub open spec fn simple_text(v: u128) -> Seq<char> {
    hex_digits(v as int, 32)
}

/// `s` with a dash behind the 8th, 12th, 16th and 20th of its first 32
/// characters.
pub open spec fn dashed(s: Seq<char>) -> Seq<char> {
    s.subrange(0, 8) + seq!['-'] + s.subrange(8, 12) + seq!['-'] + s.subrange(12, 16) + seq!['-']
        + s.subrange(16, 20) + seq!['-'] + s.subrange(20, 32)
}

/// The hyphenated spelling of an identifier.
pub open spec fn uuid_text(v: u128) -> Seq<char> {
    dashed(simple_text(v))
}

/// The value of a hexadecimal digit of either case.
pub open spec fn hex_digit_value(c: char) -> Option<int> {
    if '0' <= c <= '9' {
        Some(c as int - '0' as int)
    } else if 'a' <= c <= 'f' {
        Some(c as int - 'a' as int + 10)
    } else if 'A' <= c <= 'F' {
        Some(c as int - 'A' as int + 10)
    } else {
        None
    }
}

/// The number that a text of hexadecimal digits spells.
pub open spec fn hex_value(s: Seq<char>) -> Option<int>
    decreases s.len(),
{
    if s.len() == 0 {
        Some(0)
    } else {
        match (hex_value(s.drop_last()), hex_digit_value(s.last())) {
            (Some(high), Some(low)) => Some(high * 16 + low),
            _ => None,
        }
    }
}

/// The number that a hyphenated text of 36 characters spells.
pub open spec fn hyphenated_value(s: Seq<char>) -> Option<int> {
    if s.len() == 36 && s[8] == '-' && s[13] == '-' && s[18] == '-' && s[23] == '-' {
        hex_value(
            s.subrange(0, 8) + s.subrange(9, 13) + s.subrange(14, 18) + s.subrange(19, 23)
                + s.subrange(24, 36),
        )
    } else {
        None
    }
}

/// The identifier that a text spells: 32 hexadecimal digits, or those with
/// hyphens, bare, in braces or behind `urn:uuid:`.
pub open spec fn parsed_uuid(s: Seq<char>) -> Option<int> {
    if s.len() == 32 {
        hex_value(s)
    } else if s.len() == 36 {
        hyphenated_value(s)
    } else if s.len() == 38 && s[0] == '{' && s[37] == '}' {
        hyphenated_value(s.subrange(1, 37))
    } else if s.len() == 45 && ascii_lower(s.subrange(0, 9)) == "urn:uuid:"@ {
        hyphenated_value(s.subrange(9, 45))
    } else {
        None
    }
}

// ---------------------------------------------------------------------------
// The uuid crate
// ---------------------------------------------------------------------------

/// The name-based identifier (version 5) of `name` in `namespace`.
pub uninterp spec fn uuid_v5(namespace: u128, name: Seq<u8>) -> u128;

/// An identifier of version 4, in the standard layout.
pub open spec fn is_version_4(v: u128) -> bool {
    (v / 0x1000_0000_0000_0000_0000) % 16 == 4 && (v / 0x4000_0000_0000_0000) % 4 == 2
}

/// `uuid::Uuid::new_v4`: a random identifier. Only its version and its layout
/// are claimed.
#[verifier::external_body]
fn random_u128() -> (r: u128)
    ensures
        is_version_4(r),
{
    uuid::Uuid::new_v4().as_u128()
}

/// `uuid::Uuid::new_v5`: the identifier depends on the namespace and the name
/// alone.
#[verifier::external_body]
fn named_u128(namespace: u128, name: &[u8]) -> (r: u128)
    ensures
        r == uuid_v5(namespace, name@),
{
    uuid::Uuid::new_v5(&uuid::Uuid::from_u128(namespace), name).as_u128()
}

/// `uuid::Uuid::parse_str`: the identifier that `text` spells in one of the four
/// forms, in digits of either case, and an error for any other text.
#[verifier::external_body]
fn read_u128(text: &str) -> (r: Result<u128, uuid::Error>)
    ensures
        match r {
            Ok(v) => parsed_uuid(text@) == Some(v as int),
            Err(_) => parsed_uuid(text@) is None,
        },
{
    uuid::Uuid::parse_str(text).map(|u| u.as_u128())
}

/// `Display` of a `uuid::Uuid`: the hyphenated form in lower case.
#[verifier::external_body]
fn hyphenated_text(v: u128) -> (r: String)
    ensures
        r@ == uuid_text(v),
{
    uuid::Uuid::from_u128(v).to_string()
}

/// `uuid::Uuid::simple`: 32 digits in lower case, without hyphens.
#[verifier::external_body]
fn undashed_text(v: u128) -> (r: String)
    ensures
        r@ == simple_text(v),
{
    uuid::Uuid::from_u128(v).simple().to_string()
}

impl Uuid {
    /// The identifier with value zero.
    pub fn nil() -> (r: Uuid)
        ensures
            r.value == 0,
    {
        Uuid { value: 0 }
    }

    /// A random identifier.
    pub fn new_v4() -> (r: Uuid)
        ensures
            is_version_4(r.value),
    {
        Uuid { value: random_u128() }
    }

    /// The identifier of `name` in the namespace `namespace`.
    pub fn new_v5(namespace: &Uuid, name: &[u8]) -> (r: Uuid)
        ensures
            r.value == uuid_v5(namespace.value, name@),
    {
        Uuid { value: named_u128(namespace.value, name) }
    }

    /// The identifier that `text` spells.
    pub fn parse_str(text: &str) -> (r: Option<Uuid>)
        ensures
            match r {
                Some(u) => parsed_uuid(text@) == Some(u.value as int),
                None => parsed_uuid(text@) is None,
            },
    {
        match read_u128(text) {
            Ok(v) => Some(Uuid { value: v }),
            Err(_) => None,
        }
    }

    /// The hyphenated spelling, in lower case.
    pub fn to_string(&self) -> (r: String)
        ensures
            r@ == uuid_text(self.value),
    {
        hyphenated_text(self.value)
    }

    /// The 32 digits without hyphens, in lower case.
    pub fn simple(&self) -> (r: String)
        ensures
            r@ == simple_text(self.value),
    {
        undashed_text(self.value)
    }
}

// ---------------------------------------------------------------------------
// Laws
// ---------------------------------------------------------------------------

proof fn hex_digits_read_back(v: int, n: nat)
    requires
        0 <= v,
    ensures
        hex_digits(v, n).len() == n,
        hex_value(hex_digits(v, n)) == Some(v % vstd::arithmetic::power::pow(16, n)),
    decreases n,
{
    reveal(vstd::arithmetic::power::pow);
    if n > 0 {
        let m = (n - 1) as nat;
        hex_digits_read_back(v / 16, m);
        let high = hex_digits(v / 16, m);
        assert(high.push(digit(v % 16)).drop_last() =~= high);
        let p = vstd::arithmetic::power::pow(16, m);
        vstd::arithmetic::power::lemma_pow_positive(16, m);
        assert(hex_digit_value(digit(v % 16)) == Some(v % 16));
        assert(((v / 16) % p) * 16 + v % 16 == v % (16 * p)) by {
            vstd::arithmetic::div_mod::lemma_breakdown(v, 16, p);
        }
    }
}

/// An identifier is read back from its 32 digits.
pub proof fn simple_text_reads_back(v: u128)
    ensures
        simple_text(v).len() == 32,
        parsed_uuid(simple_text(v)) == Some(v as int),
{
    hex_digits_read_back(v as int, 32);
    assert(vstd::arithmetic::power::pow(16, 32) == 0x1_0000_0000_0000_0000_0000_0000_0000_0000int)
        by {
        reveal(vstd::arithmetic::power::pow);
        reveal_with_fuel(vstd::arithmetic::power::pow, 33);
    }
}

/// The dashes put into 32 characters are taken out again.
pub proof fn dashes_come_off(s: Seq<char>)
    requires
        s.len() == 32,
    ensures
        dashed(s).len() == 36,
        hyphenated_value(dashed(s)) == hex_value(s),
{
    let t = dashed(s);
    assert(t.subrange(0, 8) + t.subrange(9, 13) + t.subrange(14, 18) + t.subrange(19, 23)
        + t.subrange(24, 36) =~= s);
}

/// An identifier is read back from its hyphenated spelling.
pub proof fn uuid_text_reads_back(v: u128)
    ensures
        uuid_text(v).len() == 36,
        parsed_uuid(uuid_text(v)) == Some(v as int),
{
    simple_text_reads_back(v);
    dashes_come_off(simple_text(v));
}

/// Different identifiers are spelled differently, with and without hyphens.
pub proof fn spellings_are_distinct(a: u128, b: u128)
    requires
        a != b,
    ensures
        uuid_text(a) != uuid_text(b),
        simple_text(a) != simple_text(b),
{
    uuid_text_reads_back(a);
    uuid_text_reads_back(b);
    simple_text_reads_back(a);
    simple_text_reads_back(b);
}

/// A character of the spelling of an identifier.
pub open spec fn spelling_char(c: char) -> bool {
    '0' <= c <= '9' || 'a' <= c <= 'f' || c == '-'
}

proof fn hex_digits_are_spelled(v: int, n: nat)
    requires
        0 <= v,
    ensures
        hex_digits(v, n).len() == n,
        forall|i: int| 0 <= i < n ==> spelling_char(#[trigger] hex_digits(v, n)[i]),
    decreases n,
{
    if n > 0 {
        let high = hex_digits(v / 16, (n - 1) as nat);
        hex_digits_are_spelled(v / 16, (n - 1) as nat);
        assert forall|i: int| 0 <= i < n implies spelling_char(#[trigger] hex_digits(v, n)[i]) by {
            if i < n - 1 {
                assert(hex_digits(v, n)[i] == high[i]);
            }
        }
    }
}

/// Identifiers are spelled with hexadecimal digits and dashes.
pub proof fn uuid_text_is_spelled(v: u128)
    ensures
        uuid_text(v).len() == 36,
        forall|i: int| 0 <= i < 36 ==> spelling_char(#[trigger] uuid_text(v)[i]),
{
    hex_digits_are_spelled(v as int, 32);
}

} // verus!
