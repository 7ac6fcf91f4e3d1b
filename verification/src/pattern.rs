//! Searching, splitting, joining and replacing in texts.

use vstd::prelude::*;
use vstd::string::*;

use crate::text::{chars_of, string_of, views};

verus! {

// ---------------------------------------------------------------------------
// Searching
// ---------------------------------------------------------------------------

/// `pat` stands in `s` at position `i`.
pub open spec fn occurs_at(s: Seq<char>, pat: Seq<char>, i: int) -> bool {
    &&& 0 <= i
    &&& i + pat.len() <= s.len()
    &&& s.subrange(i, i + pat.len()) == pat
}

/// The first position at or after `from` at which `pat` stands in `s`.
pub open spec fn find_from(s: Seq<char>, pat: Seq<char>, from: int) -> Option<int>
    decreases s.len() + 1 - from,
{
    if from < 0 || from + pat.len() > s.len() {
        None
    } else if occurs_at(s, pat, from) {
        Some(from)
    } else {
        find_from(s, pat, from + 1)
    }
}

/// The first position at which `pat` stands in `s`.
pub open spec fn find_of(s: Seq<char>, pat: Seq<char>) -> Option<int> {
    find_from(s, pat, 0)
}

/// The last position at or before `from` at which `pat` stands in `s`.
pub open spec fn rfind_from(s: Seq<char>, pat: Seq<char>, from: int) -> Option<int>
    decreases from + 1,
{
    if from < 0 {
        None
    } else if occurs_at(s, pat, from) {
        Some(from)
    } else {
        rfind_from(s, pat, from - 1)
    }
}

/// The last position at which `pat` stands in `s`.
pub open spec fn rfind_of(s: Seq<char>, pat: Seq<char>) -> Option<int> {
    rfind_from(s, pat, s.len() - pat.len())
}

/// `pat` stands somewhere in `s`.
pub open spec fn contains_of(s: Seq<char>, pat: Seq<char>) -> bool {
    exists|i: int| occurs_at(s, pat, i)
}

/// `find_of` finds the least position.
pub proof fn find_from_is_first(s: Seq<char>, pat: Seq<char>, from: int)
    requires
        0 <= from,
    ensures
        match find_from(s, pat, from) {
            Some(i) => from <= i && occurs_at(s, pat, i) && forall|j: int|
                from <= j < i ==> !occurs_at(s, pat, j),
            None => forall|j: int| from <= j ==> !occurs_at(s, pat, j),
        },
    decreases s.len() + 1 - from,
{
    if from + pat.len() <= s.len() && !occurs_at(s, pat, from) {
        find_from_is_first(s, pat, from + 1);
    }
}

/// `rfind_of` finds the greatest position.
pub proof fn rfind_from_is_last(s: Seq<char>, pat: Seq<char>, from: int)
    ensures
        match rfind_from(s, pat, from) {
            Some(i) => i <= from && occurs_at(s, pat, i) && forall|j: int|
                i < j <= from ==> !occurs_at(s, pat, j),
            None => forall|j: int| j <= from ==> !occurs_at(s, pat, j),
        },
    decreases from + 1,
{
    if 0 <= from && !occurs_at(s, pat, from) {
        rfind_from_is_last(s, pat, from - 1);
    }
}

/// Whether `pat` stands in `s` at `i`.
pub fn matches_at(s: &Vec<char>, pat: &Vec<char>, i: usize) -> (r: bool)
    ensures
        r == occurs_at(s@, pat@, i as int),
{
    if i > s.len() || s.len() - i < pat.len() {
        return false;
    }
    let n: usize = s.len();
    let mut j: usize = 0;
    while j < pat.len()
        invariant
            j <= pat@.len(),
            n == s@.len(),
            i + pat@.len() <= n,
            forall|k: int| 0 <= k < j ==> s@[i + k] == pat@[k],
        decreases pat@.len() - j,
    {
        if s[i + j] != pat[j] {
            assert(s@.subrange(i as int, i + pat@.len())[j as int] != pat@[j as int]);
            return false;
        }
        j += 1;
    }
    assert(s@.subrange(i as int, i + pat@.len()) =~= pat@);
    true
}

/// Position of the first `pat` at or after `from`, counted in characters.
pub fn find_chars(s: &Vec<char>, pat: &Vec<char>, from: usize) -> (r: Option<usize>)
    ensures
        match r {
            Some(i) => find_from(s@, pat@, from as int) == Some(i as int) && i + pat@.len()
                <= s@.len() && from <= i,
            None => find_from(s@, pat@, from as int) is None,
        },
{
    let mut i: usize = from;
    while i <= s.len() && pat.len() <= s.len() - i
        invariant
            from <= i,
            i <= s@.len() + 1 || i == from,
            find_from(s@, pat@, from as int) == find_from(s@, pat@, i as int),
        decreases s@.len() + 1 - i,
    {
        if matches_at(s, pat, i) {
            return Some(i);
        }
        if i == s.len() {
            assert(find_from(s@, pat@, i + 1) is None);
            return None;
        }
        i += 1;
    }
    None
}

/// Position of the last `pat`, counted in characters.
pub fn rfind_chars(s: &Vec<char>, pat: &Vec<char>) -> (r: Option<usize>)
    ensures
        match r {
            Some(i) => rfind_of(s@, pat@) == Some(i as int) && i + pat@.len() <= s@.len(),
            None => rfind_of(s@, pat@) is None,
        },
{
    if pat.len() > s.len() {
        return None;
    }
    let mut i: usize = s.len() - pat.len();
    loop
        invariant
            i + pat@.len() <= s@.len(),
            rfind_of(s@, pat@) == rfind_from(s@, pat@, i as int),
        decreases i,
    {
        if matches_at(s, pat, i) {
            return Some(i);
        }
        if i == 0 {
            assert(rfind_from(s@, pat@, -1) is None);
            return None;
        }
        i -= 1;
    }
}

/// `str::contains` of a string.
pub fn contains(s: &str, pat: &str) -> (r: bool)
    ensures
        r == contains_of(s@, pat@),
{
    let found = find_chars(&chars_of(s), &chars_of(pat), 0);
    proof {
        find_from_is_first(s@, pat@, 0);
    }
    match found {
        Some(_) => true,
        None => false,
    }
}

/// `s` begins with `pat`.
pub open spec fn starts_of(s: Seq<char>, pat: Seq<char>) -> bool {
    occurs_at(s, pat, 0)
}

/// `str::starts_with` of a string.
pub fn starts_with(s: &str, pat: &str) -> (r: bool)
    ensures
        r == starts_of(s@, pat@),
{
    matches_at(&chars_of(s), &chars_of(pat), 0)
}

/// `str::strip_prefix` of a string.
pub fn strip_prefix(s: &str, pat: &str) -> (r: Option<String>)
    ensures
        match r {
            Some(t) => starts_of(s@, pat@) && t@ == s@.skip(pat@.len() as int),
            None => !starts_of(s@, pat@),
        },
{
    let cs = chars_of(s);
    let ps = chars_of(pat);
    if matches_at(&cs, &ps, 0) {
        assert(cs@.subrange(ps@.len() as int, cs@.len() as int) =~= s@.skip(pat@.len() as int));
        Some(string_of(&cs, ps.len(), cs.len()))
    } else {
        None
    }
}

/// `s` without any number of leading copies of `pat`.
pub open spec fn trim_prefixes(s: Seq<char>, pat: Seq<char>) -> Seq<char>
    decreases s.len(),
{
    if pat.len() > 0 && starts_of(s, pat) {
        trim_prefixes(s.skip(pat.len() as int), pat)
    } else {
        s
    }
}

/// `s` without any number of trailing copies of `pat`.
pub open spec fn trim_suffixes(s: Seq<char>, pat: Seq<char>) -> Seq<char>
    decreases s.len(),
{
    if pat.len() > 0 && occurs_at(s, pat, s.len() - pat.len()) {
        trim_suffixes(s.take(s.len() - pat.len()), pat)
    } else {
        s
    }
}

/// `str::trim_start_matches` of a non-empty string.
pub fn trim_start_matches(s: &str, pat: &str) -> (r: String)
    ensures
        r@ == trim_prefixes(s@, pat@),
{
    let cs = chars_of(s);
    let ps = chars_of(pat);
    let n: usize = cs.len();
    let mut lo: usize = 0;
    assert(cs@.skip(0) =~= s@);
    while ps.len() > 0 && matches_at(&cs, &ps, lo)
        invariant
            lo <= n,
            n == cs@.len(),
            ps@ == pat@,
            trim_prefixes(s@, pat@) == trim_prefixes(cs@.skip(lo as int), pat@),
        decreases cs@.len() - lo,
    {
        let ghost rest = cs@.skip(lo as int);
        assert(rest.subrange(0, ps@.len() as int) =~= cs@.subrange(lo as int, lo + ps@.len()));
        lo += ps.len();
        assert(rest.skip(ps@.len() as int) =~= cs@.skip(lo as int));
    }
    let ghost rest = cs@.skip(lo as int);
    proof {
        if lo + ps@.len() <= cs@.len() {
            assert(rest.subrange(0, ps@.len() as int) =~= cs@.subrange(lo as int, lo + ps@.len()));
        }
        assert(cs@.subrange(lo as int, cs@.len() as int) =~= rest);
    }
    string_of(&cs, lo, cs.len())
}

/// `str::trim_end_matches` of a non-empty string.
pub fn trim_end_matches(s: &str, pat: &str) -> (r: String)
    ensures
        r@ == trim_suffixes(s@, pat@),
{
    let cs = chars_of(s);
    let ps = chars_of(pat);
    let mut hi: usize = cs.len();
    assert(cs@.take(hi as int) =~= s@);
    while ps.len() > 0 && hi >= ps.len() && matches_at(&cs, &ps, hi - ps.len())
        invariant
            hi <= cs@.len(),
            ps@ == pat@,
            trim_suffixes(s@, pat@) == trim_suffixes(cs@.take(hi as int), pat@),
        decreases hi,
    {
        let ghost rest = cs@.take(hi as int);
        assert(rest.subrange(hi - ps@.len(), hi as int) =~= cs@.subrange(
            hi - ps@.len(),
            hi as int,
        ));
        hi -= ps.len();
        assert(rest.take(hi as int) =~= cs@.take(hi as int));
    }
    let ghost rest = cs@.take(hi as int);
    proof {
        if hi >= ps@.len() {
            assert(rest.subrange(hi - ps@.len(), hi as int) =~= cs@.subrange(
                hi - ps@.len(),
                hi as int,
            ));
        }
        assert(cs@.subrange(0, hi as int) =~= rest);
    }
    string_of(&cs, 0, hi)
}

// ---------------------------------------------------------------------------
// Splitting
// ---------------------------------------------------------------------------

/// The pieces of `s` between its `sep`s, as `str::split` of a character gives
/// them: one more than there are separators, empty ones included.
pub open spec fn split_char_of(s: Seq<char>, sep: char) -> Seq<Seq<char>>
    decreases s.len(),
{
    if s.len() == 0 {
        seq![Seq::<char>::empty()]
    } else {
        let before = split_char_of(s.drop_last(), sep);
        if s.last() == sep {
            before.push(Seq::<char>::empty())
        } else {
            before.drop_last().push(before.last().push(s.last()))
        }
    }
}

/// The pieces of `s` around every occurrence of `pat`, found from the left.
pub open spec fn split_str_of(s: Seq<char>, pat: Seq<char>) -> Seq<Seq<char>>
    decreases s.len(),
{
    match find_of(s, pat) {
        Some(i) if pat.len() > 0 && 0 <= i && i + pat.len() <= s.len() => seq![s.take(i)]
            + split_str_of(s.skip(i + pat.len()), pat),
        _ => seq![s],
    }
}

/// Splitting gives at least one piece.
pub proof fn split_char_nonempty(s: Seq<char>, sep: char)
    ensures
        split_char_of(s, sep).len() >= 1,
    decreases s.len(),
{
    if s.len() > 0 {
        split_char_nonempty(s.drop_last(), sep);
    }
}

/// `str::split` of a character, collected.
pub fn split_char(s: &str, sep: char) -> (r: Vec<String>)
    ensures
        views(r@) == split_char_of(s@, sep),
{
    let cs = chars_of(s);
    let mut out: Vec<String> = Vec::new();
    let mut current = String::new();
    let mut i: usize = 0;
    assert(views(out@).push(current@) =~= split_char_of(cs@.take(0), sep));
    while i < cs.len()
        invariant
            i <= cs@.len(),
            views(out@).push(current@) == split_char_of(cs@.take(i as int), sep),
        decreases cs@.len() - i,
    {
        let c = cs[i];
        let ghost before = split_char_of(cs@.take(i as int), sep);
        let ghost next = cs@.take(i + 1);
        assert(next.drop_last() =~= cs@.take(i as int));
        assert(before.drop_last() =~= views(out@));
        if c == sep {
            let piece = current;
            out.push(piece);
            current = String::new();
            assert(views(out@) =~= before);
        } else {
            current.push(c);
        }
        i += 1;
    }
    assert(cs@.take(cs@.len() as int) =~= s@);
    let ghost pieces = views(out@).push(current@);
    out.push(current);
    assert(views(out@) =~= pieces);
    out
}

/// `str::split` of a non-empty string, collected.
pub fn split_str(s: &str, pat: &str) -> (r: Vec<String>)
    requires
        pat@.len() > 0,
    ensures
        views(r@) == split_str_of(s@, pat@),
{
    let cs = chars_of(s);
    let ps = chars_of(pat);
    let mut out: Vec<String> = Vec::new();
    let n: usize = cs.len();
    let mut lo: usize = 0;
    assert(cs@.skip(0) =~= s@);
    assert(views(out@) =~= Seq::<Seq<char>>::empty());
    assert(views(out@) + split_str_of(s@, pat@) =~= split_str_of(s@, pat@));
    loop
        invariant
            lo <= n,
            n == cs@.len(),
            ps@ == pat@,
            pat@.len() > 0,
            views(out@) + split_str_of(cs@.skip(lo as int), pat@) == split_str_of(s@, pat@),
        decreases cs@.len() - lo,
    {
        let ghost rest = cs@.skip(lo as int);
        let ghost start = lo;
        proof {
            lemma_find_shift(cs@, pat@, lo as int, lo as int);
        }
        match find_chars(&cs, &ps, lo) {
            Some(i) => {
                let piece = string_of(&cs, lo, i);
                assert(piece@ =~= rest.take(i - lo));
                let ghost before = views(out@);
                out.push(piece);
                assert(views(out@) =~= before.push(piece@));
                lo = i + ps.len();
                assert(cs@.skip(lo as int) =~= rest.skip(i - start + ps@.len()));
                assert(before + (seq![piece@] + split_str_of(cs@.skip(lo as int), pat@)) =~= views(
                    out@,
                ) + split_str_of(cs@.skip(lo as int), pat@));
            },
            None => {
                let piece = string_of(&cs, lo, cs.len());
                assert(piece@ =~= rest);
                let ghost before = views(out@);
                out.push(piece);
                assert(views(out@) =~= before + seq![rest]);
                return out;
            },
        }
    }
}

/// Searching in a tail of a text is searching in the text from there on.
pub proof fn lemma_find_shift(s: Seq<char>, pat: Seq<char>, lo: int, from: int)
    requires
        0 <= lo <= from,
        lo <= s.len(),
    ensures
        match find_from(s, pat, from) {
            Some(i) => find_from(s.skip(lo), pat, from - lo) == Some(i - lo),
            None => find_from(s.skip(lo), pat, from - lo) is None,
        },
    decreases s.len() + 1 - from,
{
    if from + pat.len() <= s.len() {
        assert(s.skip(lo).subrange(from - lo, from - lo + pat.len()) =~= s.subrange(
            from,
            from + pat.len(),
        ));
        if !occurs_at(s, pat, from) {
            lemma_find_shift(s, pat, lo, from + 1);
        }
    }
}

// ---------------------------------------------------------------------------
// Joining and replacing
// ---------------------------------------------------------------------------

/// The parts with `sep` between each two neighbours.
pub open spec fn join_of(parts: Seq<Seq<char>>, sep: Seq<char>) -> Seq<char>
    decreases parts.len(),
{
    if parts.len() == 0 {
        Seq::empty()
    } else if parts.len() == 1 {
        parts[0]
    } else {
        join_of(parts.drop_last(), sep) + sep + parts.last()
    }
}

/// `[String]::join`.
pub fn join(parts: &[String], sep: &str) -> (r: String)
    ensures
        r@ == join_of(views(parts@), sep@),
{
    let mut out = String::new();
    let mut i: usize = 0;
    while i < parts.len()
        invariant
            i <= parts@.len(),
            out@ == join_of(views(parts@).take(i as int), sep@),
        decreases parts@.len() - i,
    {
        let ghost next = views(parts@).take(i + 1);
        assert(next.drop_last() =~= views(parts@).take(i as int));
        assert(next.last() == parts@[i as int]@);
        if i > 0 {
            out.append(sep);
        }
        out.append(parts[i].as_str());
        assert(out@ =~= join_of(next, sep@));
        i += 1;
    }
    assert(views(parts@).take(parts@.len() as int) =~= views(parts@));
    out
}

/// `s` with `with` in place of every `c`.
pub open spec fn replace_char_of(s: Seq<char>, c: char, with: Seq<char>) -> Seq<char>
    decreases s.len(),
{
    if s.len() == 0 {
        Seq::empty()
    } else {
        replace_char_of(s.drop_last(), c, with) + (if s.last() == c {
            with
        } else {
            seq![s.last()]
        })
    }
}

/// `str::replace` of a character.
pub fn replace_char(s: &str, c: char, with: &str) -> (r: String)
    ensures
        r@ == replace_char_of(s@, c, with@),
{
    let cs = chars_of(s);
    let mut out = String::new();
    let mut i: usize = 0;
    while i < cs.len()
        invariant
            i <= cs@.len(),
            out@ == replace_char_of(cs@.take(i as int), c, with@),
        decreases cs@.len() - i,
    {
        let ghost next = cs@.take(i + 1);
        assert(next.drop_last() =~= cs@.take(i as int));
        let x = cs[i];
        let ghost before = out@;
        if x == c {
            out.append(with);
        } else {
            out.push(x);
            assert(out@ =~= before + seq![x]);
        }
        i += 1;
    }
    assert(cs@.take(cs@.len() as int) =~= s@);
    out
}

/// `s` with `with` in place of every occurrence of `pat`, found from the left.
pub open spec fn replace_str_of(s: Seq<char>, pat: Seq<char>, with: Seq<char>) -> Seq<char> {
    join_of(split_str_of(s, pat), with)
}

/// `str::replace` of a non-empty string.
pub fn replace_str(s: &str, pat: &str, with: &str) -> (r: String)
    requires
        pat@.len() > 0,
    ensures
        r@ == replace_str_of(s@, pat@, with@),
{
    let parts = split_str(s, pat);
    join(&parts, with)
}

} // verus!
