//! What the text primitives do, character by character.

use vstd::prelude::*;

use crate::calendar::{
    civil_date_is, day_number, days_before_month, month_days, utc_text, valid_date,
};
use crate::clock::{micros_in, millis_in, nanos_in, secs_in};
use crate::ingest::datapoints::iso_text;
use crate::ingest::ids::{
    edge_object_id_of, edge_type_id_of, entity_id_of, entity_type_id_of, name_form, normal_form,
    oid_of, text_summary_id_of,
};
use crate::laws::recall::trimmed_end;
use crate::number::{digit, hex_of, pad_int};
use crate::pattern::{join_of, replace_char_of, split_char_of};
use crate::storage::relational::micros_text;
use crate::text::{blank, lowercase, trim_of, trim_start_of, unique_of, white};
use crate::uid::{parsed_uuid, uuid_text, uuid_text_reads_back, uuid_v5};

verus! {

// ---------------------------------------------------------------------------
// White space
// ---------------------------------------------------------------------------

/// White space are the characters with these numbers, and no others.
pub proof fn white_space_by_number(c: char)
    ensures
        white(c) <==> ({
            let n = c as u32;
            9 <= n <= 13 || n == 32 || n == 133 || n == 160 || n == 5760 || 8192 <= n <= 8202 || n
                == 8232 || n == 8233 || n == 8239 || n == 8287 || n == 12288
        }),
{
}

proof fn trimmed_start(s: Seq<char>)
    ensures
        exists|lead: Seq<char>| #[trigger] blank(lead) && s == lead + trim_start_of(s),
        trim_start_of(s).len() > 0 ==> !white(trim_start_of(s).first()),
    decreases s.len(),
{
    if s.len() > 0 && white(s.first()) {
        let t = s.drop_first();
        trimmed_start(t);
        let lead = choose|lead: Seq<char>| #[trigger] blank(lead) && t == lead + trim_start_of(t);
        let more = seq![s.first()] + lead;
        assert(blank(more)) by {
            assert forall|i: int| 0 <= i < more.len() implies white(#[trigger] more[i]) by {
                if i > 0 {
                    assert(more[i] == lead[i - 1]);
                }
            }
        }
        let rest = trim_start_of(t);
        assert(trim_start_of(s) == rest);
        assert(s =~= seq![s.first()] + t);
        assert(seq![s.first()] + (lead + rest) =~= more + rest);
    } else {
        let none = Seq::<char>::empty();
        assert(blank(none));
        assert(s =~= none + s);
    }
}

/// Trimming takes the white space before and behind a text, all of it and nothing
/// else.
pub proof fn trimming_takes_white_space(s: Seq<char>)
    ensures
        exists|lead: Seq<char>, trail: Seq<char>|
            #![trigger blank(lead), blank(trail)]
            blank(lead) && blank(trail) && s == lead + trim_of(s) + trail,
        trim_of(s).len() > 0 ==> !white(trim_of(s).first()) && !white(trim_of(s).last()),
{
    trimmed_start(s);
    let lead = choose|lead: Seq<char>| #[trigger] blank(lead) && s == lead + trim_start_of(s);
    let t = trim_start_of(s);
    trimmed_end(t);
    let n = trim_of(s).len() as int;
    let trail = t.skip(n);
    assert(blank(trail)) by {
        assert forall|i: int| 0 <= i < trail.len() implies white(#[trigger] trail[i]) by {
            assert(trail[i] == t[n + i]);
        }
    }
    assert(s =~= lead + trim_of(s) + trail);
    if n > 0 {
        assert(trim_of(s).first() == t.first());
    }
}

// ---------------------------------------------------------------------------
// Replacing, splitting and joining
// ---------------------------------------------------------------------------

/// Replacing a character goes through a text from the front: that character becomes
/// the other text, and every other one stays.
pub proof fn replacing_goes_character_by_character(
    s: Seq<char>,
    next: char,
    c: char,
    with: Seq<char>,
)
    ensures
        replace_char_of(Seq::empty(), c, with).len() == 0,
        next == c ==> replace_char_of(s.push(next), c, with) == replace_char_of(s, c, with) + with,
        next != c ==> replace_char_of(s.push(next), c, with) == replace_char_of(s, c, with).push(
            next,
        ),
{
    assert(s.push(next).drop_last() =~= s);
    assert(s.push(next).last() == next);
    assert(replace_char_of(s, c, with) + seq![next] =~= replace_char_of(s, c, with).push(next));
}

proof fn pieces_hold_no_separator(s: Seq<char>, sep: char)
    ensures
        split_char_of(s, sep).len() >= 1,
        forall|i: int|
            0 <= i < split_char_of(s, sep).len() ==> !(#[trigger] split_char_of(s, sep)[i]).contains(
                sep,
            ),
        join_of(split_char_of(s, sep), seq![sep]) == s,
    decreases s.len(),
{
    let parts = split_char_of(s, sep);
    if s.len() == 0 {
        assert(parts == seq![Seq::<char>::empty()]);
        assert(join_of(parts, seq![sep]) =~= s);
    } else {
        let head = s.drop_last();
        let before = split_char_of(head, sep);
        pieces_hold_no_separator(head, sep);
        assert(head.push(s.last()) =~= s);
        if s.last() == sep {
            assert(parts == before.push(Seq::<char>::empty()));
            assert(parts.drop_last() =~= before);
            assert(join_of(parts, seq![sep]) =~= head + seq![sep]);
            assert forall|i: int| 0 <= i < parts.len() implies !(#[trigger] parts[i]).contains(
                sep,
            ) by {
                if i < before.len() {
                    assert(parts[i] == before[i]);
                }
            }
        } else {
            let last = before.last().push(s.last());
            assert(parts == before.drop_last().push(last));
            assert forall|i: int| 0 <= i < parts.len() implies !(#[trigger] parts[i]).contains(
                sep,
            ) by {
                if i < parts.len() - 1 {
                    assert(parts[i] == before[i]);
                } else {
                    let old = before[before.len() - 1];
                    assert(!old.contains(sep));
                    if last.contains(sep) {
                        let k = choose|k: int| 0 <= k < last.len() && last[k] == sep;
                        assert(old[k] == sep);
                    }
                }
            }
            assert(parts.drop_last() =~= before.drop_last());
            if before.len() == 1 {
                assert(join_of(parts, seq![sep]) == parts[0]);
                assert(parts[0] == last);
                assert(before[0].push(s.last()) =~= s);
            } else {
                assert(join_of(parts, seq![sep]) =~= join_of(before, seq![sep]).push(s.last()));
            }
        }
    }
}

/// Splitting a text at a character gives pieces without it, which joined with it
/// give the text.
pub proof fn splitting_is_undone_by_joining(s: Seq<char>, sep: char)
    ensures
        join_of(split_char_of(s, sep), seq![sep]) == s,
        forall|i: int|
            0 <= i < split_char_of(s, sep).len() ==> !(#[trigger] split_char_of(s, sep)[i]).contains(
                sep,
            ),
{
    pieces_hold_no_separator(s, sep);
}

/// What is left of a list without repetitions keeps the order of first occurrences.
pub proof fn first_occurrences_keep_their_order(list: Seq<Seq<char>>, more: Seq<char>)
    ensures
        list.contains(more) ==> unique_of(list.push(more)) == unique_of(list),
        !list.contains(more) ==> unique_of(list.push(more)) == unique_of(list).push(more),
{
    crate::text::unique_keeps_each_once(list);
    assert(list.push(more).drop_last() =~= list);
    assert(unique_of(list).contains(more) <==> list.contains(more));
}

// ---------------------------------------------------------------------------
// Names
// ---------------------------------------------------------------------------

/// The normal form of a name is its lower case with underscores for spaces and
/// without apostrophes; the kept form of a node's name keeps its spaces.
pub proof fn names_are_normalised(s: Seq<char>)
    ensures
        normal_form(s) == replace_char_of(replace_char_of(lowercase(s), ' ', "_"@), '\'', ""@),
        name_form(s) == replace_char_of(lowercase(s), '\'', ""@),
{
}

// ---------------------------------------------------------------------------
// Numbers and times
// ---------------------------------------------------------------------------

/// Each byte is spelled with two digits, the higher first.
pub proof fn bytes_are_two_digits(bytes: Seq<u8>, i: int)
    requires
        0 <= i < bytes.len(),
    ensures
        hex_of(bytes).len() == 2 * bytes.len(),
        hex_of(bytes)[2 * i] == digit(bytes[i] as int / 16),
        hex_of(bytes)[2 * i + 1] == digit(bytes[i] as int % 16),
    decreases bytes.len(),
{
    let head = bytes.drop_last();
    hex_length(head);
    if i < head.len() {
        bytes_are_two_digits(head, i);
        assert(head[i] == bytes[i]);
    }
}

proof fn hex_length(bytes: Seq<u8>)
    ensures
        hex_of(bytes).len() == 2 * bytes.len(),
    decreases bytes.len(),
{
    if bytes.len() > 0 {
        hex_length(bytes.drop_last());
    }
}

/// The calendar: the first day is the first of January 1970, the days of a month
/// follow one another, and behind the last of a month comes the first of the next.
pub proof fn days_follow_one_another(y: int, m: int, d: int)
    requires
        valid_date(y, m, d),
    ensures
        day_number(1970, 1, 1) == 0,
        day_number(y, m, d + 1) == day_number(y, m, d) + 1,
        m < 12 ==> day_number(y, m + 1, 1) == day_number(y, m, month_days(y, m)) + 1,
        month_days(y, 2) == (if y % 400 == 0 || (y % 4 == 0 && y % 100 != 0) {
            29int
        } else {
            28int
        }),
        month_days(y, 1) == 31,
        month_days(y, 3) == 31,
        month_days(y, 4) == 30,
        month_days(y, 12) == 31,
{
    assert(days_before_month(1970, 1) == 0);
    assert(days_before_month(y, m + 1) == days_before_month(y, m) + month_days(y, m));
}

/// A moment is spelled by its date and its time of day.
pub proof fn moments_are_spelled(
    y: int,
    m: int,
    d: int,
    hour: int,
    minute: int,
    second: int,
    sep: char,
)
    requires
        valid_date(y, m, d),
        0 <= hour < 24,
        0 <= minute < 60,
        0 <= second < 60,
    ensures
        utc_text(day_number(y, m, d) * 86400 + hour * 3600 + minute * 60 + second, sep) == pad_int(
            y,
            4,
        ) + "-"@ + pad_int(m, 2) + "-"@ + pad_int(d, 2) + seq![sep] + pad_int(hour, 2) + ":"@
            + pad_int(minute, 2) + ":"@ + pad_int(second, 2),
{
    let days = day_number(y, m, d);
    let secs = days * 86400 + hour * 3600 + minute * 60 + second;
    clock_parts(days, hour, minute, second);
    civil_date_is(y, m, d, days);
    assert(crate::calendar::civil_date(secs / 86400) == (y, m, d));
}

proof fn clock_parts(days: int, hour: int, minute: int, second: int)
    requires
        0 <= hour < 24,
        0 <= minute < 60,
        0 <= second < 60,
    ensures
        ({
            let secs = days * 86400 + hour * 3600 + minute * 60 + second;
            let rem = secs % 86400;
            &&& secs / 86400 == days
            &&& rem / 3600 == hour
            &&& rem % 3600 / 60 == minute
            &&& rem % 60 == second
        }),
{
    let rem = hour * 3600 + minute * 60 + second;
    let secs = days * 86400 + rem;
    assert(0 <= rem < 86400);
    assert(secs / 86400 == days && secs % 86400 == rem) by {
        vstd::arithmetic::div_mod::lemma_fundamental_div_mod_converse(secs, 86400, days, rem);
    }
    let past = minute * 60 + second;
    assert(0 <= past < 3600);
    assert(rem / 3600 == hour && rem % 3600 == past) by {
        vstd::arithmetic::div_mod::lemma_fundamental_div_mod_converse(rem, 3600, hour, past);
    }
    assert(past / 60 == minute) by {
        vstd::arithmetic::div_mod::lemma_fundamental_div_mod_converse(past, 60, minute, second);
    }
    assert(rem % 60 == second) by {
        vstd::arithmetic::div_mod::lemma_fundamental_div_mod_converse(
            rem,
            60,
            hour * 60 + minute,
            second,
        );
    }
}

/// Milliseconds are spelled behind the second, in six digits.
pub proof fn parts_of_a_second_are_spelled(secs: int, ms: int, micros: int)
    requires
        0 <= ms < 1000,
    ensures
        iso_text(secs * 1000 + ms) == utc_text(secs, 'T') + "."@ + pad_int(ms * 1000, 6),
        micros_text(secs, micros) == utc_text(secs, ' ') + "."@ + pad_int(micros, 6),
{
    assert((secs * 1000 + ms) / 1000 == secs);
    assert((secs * 1000 + ms) % 1000 == ms);
}

/// An identifier is also read in braces and behind its scheme.
pub proof fn identifiers_are_read_in_dress(v: u128)
    ensures
        parsed_uuid("{"@ + uuid_text(v) + "}"@) == Some(v as int),
        parsed_uuid("urn:uuid:"@ + uuid_text(v)) == Some(v as int),
{
    reveal_strlit("{");
    reveal_strlit("}");
    reveal_strlit("urn:uuid:");
    uuid_text_reads_back(v);
    let text = uuid_text(v);
    let a = "{"@ + text + "}"@;
    assert(a.subrange(1, 37) =~= text);
    let b = "urn:uuid:"@ + text;
    assert(b.subrange(9, 45) =~= text);
    assert(b.subrange(0, 9) =~= "urn:uuid:"@);
    assert(crate::text::ascii_lower("urn:uuid:"@) =~= "urn:uuid:"@);
}

/// A reading of the clock is whole milliseconds, whole seconds and the microseconds
/// of the last second, as long as they fit.
pub proof fn readings_are_whole(d: core::time::Duration)
    ensures
        nanos_in(d) / 1_000_000 <= i64::MAX ==> millis_in(Some(d)) == nanos_in(d) / 1_000_000,
        nanos_in(d) / 1_000_000_000 <= i64::MAX ==> secs_in(Some(d)) == nanos_in(d)
            / 1_000_000_000,
        micros_in(Some(d)) == nanos_in(d) / 1000 - nanos_in(d) / 1_000_000_000 * 1_000_000,
        millis_in(None) == 0,
        secs_in(None) == 0,
        micros_in(None) == 0,
{
    let n = nanos_in(d) as int;
    let s = n / 1_000_000_000;
    let rest = n % 1_000_000_000;
    assert(n == s * 1_000_000_000 + rest);
    assert(n / 1000 == s * 1_000_000 + rest / 1000);
}

// ---------------------------------------------------------------------------
// Identifiers from names
// ---------------------------------------------------------------------------

/// The identifiers of entities, types and relationships are those of their class and
/// the normal form of their name; that of a summary is made from its chunk's, and that
/// of an edge from its ends and its name.
pub proof fn identifiers_come_from_names(name: Seq<char>, chunk: u128, from: Seq<char>, to: Seq<char>)
    ensures
        entity_id_of(name) == oid_of("Entity"@ + ":"@ + normal_form(name)),
        entity_type_id_of(name) == oid_of("EntityType"@ + ":"@ + normal_form(name)),
        edge_type_id_of(name) == oid_of("EdgeType"@ + ":"@ + normal_form(name)),
        text_summary_id_of(chunk) == uuid_v5(chunk, vstd::utf8::encode_utf8("TextSummary"@)),
        edge_object_id_of(from, name, to) == oid_of(normal_form(from + name + to)),
        oid_of(name) == uuid_v5(
            0x6ba7b812_9dad_11d1_80b4_00c04fd430c8,
            vstd::utf8::encode_utf8(name),
        ),
{
    let one = seq![name];
    let f = |v: Seq<char>| normal_form(v);
    assert(one.map_values(f) =~= seq![normal_form(name)]);
    assert(join_of(seq![normal_form(name)], "|"@) == normal_form(name));
}

} // verus!
