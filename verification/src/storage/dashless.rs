//! Identifiers as the relational store keeps them: hexadecimal without dashes.

use vstd::prelude::*;
use vstd::string::*;
use vstd::utf8::*;

use crate::text::owned;
use crate::uid::{parsed_uuid, simple_text, simple_text_reads_back, Uuid};

verus! {

/// A text that can be cut behind its 8th, 12th, 16th, 20th and 32nd byte.
pub open spec fn dashable(s: Seq<char>) -> bool {
    let bytes = encode_utf8(s);
    &&& bytes.len() >= 32
    &&& is_char_boundary(bytes, 8)
    &&& is_char_boundary(bytes, 12)
    &&& is_char_boundary(bytes, 16)
    &&& is_char_boundary(bytes, 20)
    &&& is_char_boundary(bytes, 32)
}

/// The characters in a range of bytes.
pub open spec fn byte_range(s: Seq<char>, from: int, to: int) -> Seq<char> {
    decode_utf8(encode_utf8(s).subrange(from, to))
}

/// The first 32 bytes with dashes behind the 8th, 12th, 16th and 20th.
pub open spec fn dashed_text(s: Seq<char>) -> Seq<char> {
    byte_range(s, 0, 8) + "-"@ + byte_range(s, 8, 12) + "-"@ + byte_range(s, 12, 16) + "-"@
        + byte_range(s, 16, 20) + "-"@ + byte_range(s, 20, 32)
}

/// The identifier that a stored text stands for: as it is, or failing that with
/// dashes put in where it can be cut for them.
pub open spec fn stored_uuid(s: Seq<char>) -> Option<int> {
    match parsed_uuid(s) {
        Some(v) => Some(v),
        None => if dashable(s) {
            parsed_uuid(dashed_text(s))
        } else {
            None
        },
    }
}

/// Whether a text can be cut for dashes.
pub fn is_dashable(s: &str) -> (r: bool)
    ensures
        r == dashable(s@),
{
    let bytes = s.as_bytes();
    if bytes.len() < 32 {
        return false;
    }
    s.is_char_boundary(8) && s.is_char_boundary(12) && s.is_char_boundary(16)
        && s.is_char_boundary(20) && s.is_char_boundary(32)
}

proof fn text_of_bytes(s: &str)
    ensures
        s@ == decode_utf8(s.spec_bytes()),
        valid_utf8(s.spec_bytes()),
{
    encode_utf8_decode_utf8(s@);
    encode_utf8_valid_utf8(s@);
}

proof fn boundary_in_rest(bytes: Seq<u8>, cut: int, at: int)
    requires
        valid_utf8(bytes),
        0 <= cut <= at <= bytes.len(),
        is_char_boundary(bytes, cut),
        is_char_boundary(bytes, at),
    ensures
        valid_utf8(bytes.subrange(cut, bytes.len() as int)),
        is_char_boundary(bytes.subrange(cut, bytes.len() as int), at - cut),
{
    let rest = bytes.subrange(cut, bytes.len() as int);
    valid_utf8_split(bytes, cut);
    if at < bytes.len() {
        is_char_boundary_iff_not_is_continuation_byte(bytes, at);
        is_char_boundary_iff_not_is_continuation_byte(rest, at - cut);
        assert(rest[at - cut] == bytes[at]);
    } else {
        is_char_boundary_start_end_of_seq(rest);
    }
}

/// The first 32 bytes with dashes behind the 8th, 12th, 16th and 20th.
pub fn insert_dashes(hex: &str) -> (r: String)
    requires
        dashable(hex@),
    ensures
        r@ == dashed_text(hex@),
{
    let ghost bytes = hex.spec_bytes();
    proof {
        text_of_bytes(hex);
        boundary_in_rest(bytes, 8, 12);
        boundary_in_rest(bytes, 12, 16);
        boundary_in_rest(bytes, 16, 20);
        boundary_in_rest(bytes, 20, 32);
    }
    let (p1, r1) = hex.split_at(8);
    let (p2, r2) = r1.split_at(4);
    assert(r2.spec_bytes() =~= bytes.subrange(12, bytes.len() as int));
    let (p3, r3) = r2.split_at(4);
    assert(r3.spec_bytes() =~= bytes.subrange(16, bytes.len() as int));
    let (p4, r4) = r3.split_at(4);
    assert(r4.spec_bytes() =~= bytes.subrange(20, bytes.len() as int));
    let (p5, r5) = r4.split_at(12);
    proof {
        text_of_bytes(p1);
        text_of_bytes(p2);
        text_of_bytes(p3);
        text_of_bytes(p4);
        text_of_bytes(p5);
        assert(p1.spec_bytes() =~= bytes.subrange(0, 8));
        assert(p2.spec_bytes() =~= bytes.subrange(8, 12));
        assert(p3.spec_bytes() =~= bytes.subrange(12, 16));
        assert(p4.spec_bytes() =~= bytes.subrange(16, 20));
        assert(p5.spec_bytes() =~= bytes.subrange(20, 32));
    }
    let mut out = owned(p1);
    out.append("-");
    out.append(p2);
    out.append("-");
    out.append(p3);
    out.append("-");
    out.append(p4);
    out.append("-");
    out.append(p5);
    out
}

/// An identifier without dashes.
pub fn dashless(id: Uuid) -> (r: String)
    ensures
        r@ == simple_text(id.value),
{
    id.simple()
}

/// The identifier that a stored text stands for.
pub fn parse_dashless(hex: &str) -> (r: Option<Uuid>)
    ensures
        match r {
            Some(u) => stored_uuid(hex@) == Some(u.value as int),
            None => stored_uuid(hex@) is None,
        },
{
    match Uuid::parse_str(hex) {
        Some(u) => Some(u),
        None => if is_dashable(hex) {
            let dashed = insert_dashes(hex);
            Uuid::parse_str(dashed.as_str())
        } else {
            None
        },
    }
}

/// An identifier is read back from how it is stored.
pub proof fn stored_reads_back(v: u128)
    ensures
        stored_uuid(simple_text(v)) == Some(v as int),
{
    simple_text_reads_back(v);
}

} // verus!
