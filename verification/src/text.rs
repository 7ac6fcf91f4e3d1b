//! Text primitives over Unicode scalar values.
//!
//! Every function here works on the characters of a string: the specification
//! of a text is the sequence of its `char`s, and the executable functions are
//! proved against that sequence.

use vstd::hash_map::StringHashMap;
use vstd::prelude::*;
use vstd::string::*;

verus! {

// ---------------------------------------------------------------------------
// Building and taking strings apart
// ---------------------------------------------------------------------------

/// `String::push` of the standard library appends the given character to the
/// end of the string.
pub assume_specification[ String::push ](s: &mut String, c: char)
    ensures
        final(s)@ == old(s)@.push(c),
;

/// The characters of `s`, in order.
pub fn chars_of(s: &str) -> (r: Vec<char>)
    ensures
        r@ == s@,
{
    let mut out: Vec<char> = Vec::new();
    for c in it: s.chars()
        invariant
            out@ == it.seq().take(it.index() as int),
            it.seq() == s@,
    {
        assert(it.seq().take(it.index() as int).push(it.seq()[it.index() as int])
            =~= it.seq().take(it.index() + 1));
        out.push(c);
    }
    assert(s@.take(s@.len() as int) =~= s@);
    out
}

/// The string holding `chars[from..to]`.
pub fn string_of(chars: &Vec<char>, from: usize, to: usize) -> (r: String)
    requires
        from <= to <= chars@.len(),
    ensures
        r@ == chars@.subrange(from as int, to as int),
{
    let mut out = String::new();
    let mut i: usize = from;
    while i < to
        invariant
            from <= i <= to <= chars@.len(),
            out@ == chars@.subrange(from as int, i as int),
        decreases to - i,
    {
        out.push(chars[i]);
        i += 1;
        assert(chars@.subrange(from as int, i as int)
            =~= chars@.subrange(from as int, i - 1).push(chars@[i - 1]));
    }
    out
}

/// The string holding all of `chars`.
pub fn string_from(chars: &Vec<char>) -> (r: String)
    ensures
        r@ == chars@,
{
    let r = string_of(chars, 0, chars.len());
    assert(chars@.subrange(0, chars@.len() as int) =~= chars@);
    r
}

/// Two strings are equal exactly when their characters are.
pub fn same(a: &str, b: &str) -> (r: bool)
    ensures
        r == (a@ == b@),
{
    broadcast use vstd::utf8::encode_utf8_decode_utf8;
    let x = a.as_bytes();
    let y = b.as_bytes();
    let n: usize = x.len();
    if n != y.len() {
        return false;
    }
    let mut i: usize = 0;
    while i < n
        invariant
            i <= n,
            n == x@.len(),
            n == y@.len(),
            x@ == a.spec_bytes(),
            y@ == b.spec_bytes(),
            forall|j: int| 0 <= j < i ==> x@[j] == y@[j],
        decreases n - i,
    {
        if x[i] != y[i] {
            return false;
        }
        i += 1;
    }
    assert(x@ =~= y@);
    assert(vstd::utf8::decode_utf8(vstd::utf8::encode_utf8(a@)) == a@);
    assert(vstd::utf8::decode_utf8(vstd::utf8::encode_utf8(b@)) == b@);
    true
}

/// `s` in a string of its own.
pub fn owned(s: &str) -> (r: String)
    ensures
        r@ == s@,
{
    s.to_owned()
}

/// `a` followed by `b`.
pub fn concat2(a: &str, b: &str) -> (r: String)
    ensures
        r@ == a@ + b@,
{
    let mut out = owned(a);
    out.append(b);
    out
}

/// `a`, `b` and `c` in a row.
pub fn concat3(a: &str, b: &str, c: &str) -> (r: String)
    ensures
        r@ == a@ + b@ + c@,
{
    let mut out = owned(a);
    out.append(b);
    out.append(c);
    out
}

/// The views of a list of strings.
pub open spec fn views(list: Seq<String>) -> Seq<Seq<char>> {
    list.map_values(|s: String| s@)
}

/// The views of a list of string slices.
pub open spec fn str_views(list: Seq<&str>) -> Seq<Seq<char>> {
    list.map_values(|s: &str| s@)
}

/// The view of an optional string.
pub open spec fn opt_view(o: Option<String>) -> Option<Seq<char>> {
    match o {
        Some(s) => Some(s@),
        None => None,
    }
}

/// A copy of an optional string.
pub fn copy_opt(o: &Option<String>) -> (r: Option<String>)
    ensures
        opt_view(r) == opt_view(*o),
{
    match o {
        Some(s) => Some(s.clone()),
        None => None,
    }
}

/// A text, or the empty one.
pub fn or_empty(o: &Option<String>) -> (r: String)
    ensures
        r@ == (match opt_view(*o) {
            Some(s) => s,
            None => Seq::empty(),
        }),
{
    match o {
        Some(s) => owned(s.as_str()),
        None => String::new(),
    }
}

/// An optional string, borrowed.
pub fn opt_str(o: &Option<String>) -> (r: Option<&str>)
    ensures
        opt_view(*o) == (match r {
            Some(s) => Some(s@),
            None => None,
        }),
{
    match o {
        Some(s) => Some(s.as_str()),
        None => None,
    }
}

/// The first position of `needle` in `list`.
pub fn index_of(list: &[String], needle: &str) -> (r: Option<usize>)
    ensures
        match r {
            Some(i) => i < list@.len() && list@[i as int]@ == needle@ && forall|j: int|
                0 <= j < i ==> (#[trigger] list@[j])@ != needle@,
            None => forall|j: int| 0 <= j < list@.len() ==> (#[trigger] list@[j])@ != needle@,
        },
{
    let mut i: usize = 0;
    while i < list.len()
        invariant
            i <= list@.len(),
            forall|j: int| 0 <= j < i ==> (#[trigger] list@[j])@ != needle@,
        decreases list@.len() - i,
    {
        if same(list[i].as_str(), needle) {
            return Some(i);
        }
        i += 1;
    }
    None
}

/// Whether `needle` is one of the strings of `list`.
pub fn has(list: &[String], needle: &str) -> (r: bool)
    ensures
        r == views(list@).contains(needle@),
{
    let found = index_of(list, needle);
    proof {
        match found {
            Some(i) => {
                assert(views(list@)[i as int] == needle@);
            },
            None => {
                if views(list@).contains(needle@) {
                    let j = choose|j: int|
                        0 <= j < views(list@).len() && views(list@)[j] == needle@;
                    assert(list@[j]@ == needle@);
                }
            },
        }
    }
    match found {
        Some(_) => true,
        None => false,
    }
}

/// The texts without those that stand earlier already.
pub open spec fn unique_of(list: Seq<Seq<char>>) -> Seq<Seq<char>>
    decreases list.len(),
{
    if list.len() == 0 {
        list
    } else {
        let before = unique_of(list.drop_last());
        if before.contains(list.last()) {
            before
        } else {
            before.push(list.last())
        }
    }
}

/// The distinct strings of `list`, in order of first occurrence.
pub fn unique(list: &[String]) -> (r: Vec<String>)
    ensures
        views(r@) == unique_of(views(list@)),
{
    let ghost all = views(list@);
    let mut seen: StringHashMap<bool> = StringHashMap::new();
    let mut out: Vec<String> = Vec::new();
    let mut i: usize = 0;
    assert(views(out@) =~= unique_of(all.take(0)));
    while i < list.len()
        invariant
            i <= list@.len(),
            all == views(list@),
            views(out@) == unique_of(all.take(i as int)),
            forall|x: Seq<char>| #[trigger] seen@.contains_key(x) <==> views(out@).contains(x),
        decreases list@.len() - i,
    {
        let ghost had = views(out@);
        assert(all.take(i + 1).drop_last() =~= all.take(i as int));
        assert(all.take(i + 1).last() == list@[i as int]@);
        if !seen.contains_key(list[i].as_str()) {
            let ghost before = seen@;
            seen.insert(owned(list[i].as_str()), true);
            out.push(owned(list[i].as_str()));
            let ghost now = views(out@);
            assert(now =~= had.push(list@[i as int]@));
            assert forall|x: Seq<char>| #[trigger] seen@.contains_key(x) <==> now.contains(x) by {
                assert(now[had.len() as int] == list@[i as int]@);
                if had.contains(x) {
                    let j = choose|j: int| 0 <= j < had.len() && had[j] == x;
                    assert(now[j] == x);
                }
                if now.contains(x) {
                    let j = choose|j: int| 0 <= j < now.len() && now[j] == x;
                    if j < had.len() {
                        assert(had[j] == x);
                        assert(before.contains_key(x));
                    }
                }
                if seen@.contains_key(x) && x != list@[i as int]@ {
                    assert(before.contains_key(x));
                }
            }
        }
        i += 1;
    }
    assert(all.take(all.len() as int) =~= all);
    out
}

/// `unique_of` keeps the texts there are, each once.
pub proof fn unique_keeps_each_once(list: Seq<Seq<char>>)
    ensures
        unique_of(list).no_duplicates(),
        forall|x: Seq<char>| #[trigger] unique_of(list).contains(x) <==> list.contains(x),
    decreases list.len(),
{
    if list.len() > 0 {
        let head = list.drop_last();
        unique_keeps_each_once(head);
        let before = unique_of(head);
        let after = unique_of(list);
        assert(list.last() == list[list.len() - 1]);
        assert forall|x: Seq<char>| #[trigger] after.contains(x) <==> list.contains(x) by {
            if list.contains(x) {
                let j = choose|j: int| 0 <= j < list.len() && list[j] == x;
                if j < head.len() {
                    assert(head[j] == x);
                    assert(before.contains(x));
                    let k = choose|k: int| 0 <= k < before.len() && before[k] == x;
                    assert(after[k] == x);
                } else if !before.contains(list.last()) {
                    assert(after[before.len() as int] == x);
                }
            }
            if after.contains(x) {
                let k = choose|k: int| 0 <= k < after.len() && after[k] == x;
                if k < before.len() {
                    assert(before[k] == x);
                    assert(before.contains(x));
                    assert(head.contains(x));
                    let j = choose|j: int| 0 <= j < head.len() && head[j] == x;
                    assert(list[j] == x);
                }
            }
        }
    }
}

// ---------------------------------------------------------------------------
// White space
// ---------------------------------------------------------------------------

/// The Unicode `White_Space` property.
pub open spec fn white(c: char) -> bool {
    ||| '\u{9}' <= c <= '\u{d}'
    ||| c == ' '
    ||| c == '\u{85}'
    ||| c == '\u{a0}'
    ||| c == '\u{1680}'
    ||| '\u{2000}' <= c <= '\u{200a}'
    ||| c == '\u{2028}'
    ||| c == '\u{2029}'
    ||| c == '\u{202f}'
    ||| c == '\u{205f}'
    ||| c == '\u{3000}'
}

/// Whether `c` is white space.
pub fn is_white(c: char) -> (r: bool)
    ensures
        r == white(c),
{
    ('\u{9}' <= c && c <= '\u{d}') || c == ' ' || c == '\u{85}' || c == '\u{a0}' || c
        == '\u{1680}' || ('\u{2000}' <= c && c <= '\u{200a}') || c == '\u{2028}' || c == '\u{2029}'
        || c == '\u{202f}' || c == '\u{205f}' || c == '\u{3000}'
}

/// All of `s` is white space.
pub open spec fn blank(s: Seq<char>) -> bool {
    forall|i: int| 0 <= i < s.len() ==> white(#[trigger] s[i])
}

/// `s` without leading white space.
pub open spec fn trim_start_of(s: Seq<char>) -> Seq<char>
    decreases s.len(),
{
    if s.len() > 0 && white(s.first()) {
        trim_start_of(s.drop_first())
    } else {
        s
    }
}

/// `s` without trailing white space.
pub open spec fn trim_end_of(s: Seq<char>) -> Seq<char>
    decreases s.len(),
{
    if s.len() > 0 && white(s.last()) {
        trim_end_of(s.drop_last())
    } else {
        s
    }
}

/// `s` without leading and trailing white space.
pub open spec fn trim_of(s: Seq<char>) -> Seq<char> {
    trim_end_of(trim_start_of(s))
}

proof fn lemma_trim_start_at(s: Seq<char>, lo: int)
    requires
        0 <= lo <= s.len(),
        forall|i: int| 0 <= i < lo ==> white(#[trigger] s[i]),
        lo < s.len() ==> !white(s[lo]),
    ensures
        trim_start_of(s) == s.skip(lo),
    decreases s.len(),
{
    if lo > 0 {
        assert(white(s[0]));
        assert forall|i: int| 0 <= i < lo - 1 implies white(#[trigger] s.drop_first()[i]) by {
            assert(white(s[i + 1]));
        }
        lemma_trim_start_at(s.drop_first(), lo - 1);
        assert(s.drop_first().skip(lo - 1) =~= s.skip(lo));
    } else {
        assert(s.skip(0) =~= s);
    }
}

proof fn lemma_trim_end_at(s: Seq<char>, hi: int)
    requires
        0 <= hi <= s.len(),
        forall|i: int| hi <= i < s.len() ==> white(#[trigger] s[i]),
        hi > 0 ==> !white(s[hi - 1]),
    ensures
        trim_end_of(s) == s.take(hi),
    decreases s.len(),
{
    if hi < s.len() {
        assert(white(s[s.len() - 1]));
        assert forall|i: int| hi <= i < s.drop_last().len() implies white(
            #[trigger] s.drop_last()[i],
        ) by {
            assert(white(s[i]));
        }
        lemma_trim_end_at(s.drop_last(), hi);
        assert(s.drop_last().take(hi) =~= s.take(hi));
    } else {
        assert(s.take(hi) =~= s);
    }
}

/// `str::trim`: the part of `s` between its first and its last character that
/// is not white space.
pub fn trim(s: &str) -> (r: String)
    ensures
        r@ == trim_of(s@),
{
    let chars = chars_of(s);
    let n: usize = chars.len();
    let mut lo: usize = 0;
    while lo < n && is_white(chars[lo])
        invariant
            lo <= n,
            n == chars@.len(),
            forall|i: int| 0 <= i < lo ==> white(#[trigger] chars@[i]),
        decreases n - lo,
    {
        lo += 1;
    }
    let mut hi: usize = n;
    while hi > lo && is_white(chars[hi - 1])
        invariant
            lo <= hi <= n,
            n == chars@.len(),
            forall|i: int| hi <= i < n ==> white(#[trigger] chars@[i]),
        decreases hi,
    {
        hi -= 1;
    }
    proof {
        lemma_trim_start_at(chars@, lo as int);
        let t = chars@.skip(lo as int);
        assert forall|i: int| hi - lo <= i < t.len() implies white(#[trigger] t[i]) by {
            assert(white(chars@[i + lo]));
        }
        lemma_trim_end_at(t, hi - lo);
        assert(t.take(hi - lo) =~= chars@.subrange(lo as int, hi as int));
    }
    string_of(&chars, lo, hi)
}

/// `str::trim_start`.
pub fn trim_start(s: &str) -> (r: String)
    ensures
        r@ == trim_start_of(s@),
{
    let chars = chars_of(s);
    let n: usize = chars.len();
    let mut lo: usize = 0;
    while lo < n && is_white(chars[lo])
        invariant
            lo <= n,
            n == chars@.len(),
            forall|i: int| 0 <= i < lo ==> white(#[trigger] chars@[i]),
        decreases n - lo,
    {
        lo += 1;
    }
    proof {
        lemma_trim_start_at(chars@, lo as int);
        assert(chars@.subrange(lo as int, n as int) =~= chars@.skip(lo as int));
    }
    string_of(&chars, lo, n)
}

/// A trimmed text is a part of the text.
pub proof fn trimmed_is_part(s: Seq<char>)
    ensures
        exists|a: int, b: int|
            #![trigger s.subrange(a, b)]
            0 <= a <= b <= s.len() && trim_of(s) == s.subrange(a, b),
{
    start_trimmed_is_part(s);
    let a = choose|a: int| 0 <= a <= s.len() && trim_start_of(s) == #[trigger] s.skip(a);
    let rest = s.skip(a);
    end_trimmed_is_part(rest);
    let n = choose|n: int| 0 <= n <= rest.len() && trim_end_of(rest) == #[trigger] rest.take(n);
    assert(s.subrange(a, a + n) =~= rest.take(n));
}

proof fn start_trimmed_is_part(s: Seq<char>)
    ensures
        exists|a: int| 0 <= a <= s.len() && trim_start_of(s) == #[trigger] s.skip(a),
    decreases s.len(),
{
    if s.len() > 0 && white(s.first()) {
        let t = s.drop_first();
        start_trimmed_is_part(t);
        let a = choose|a: int| 0 <= a <= t.len() && trim_start_of(t) == #[trigger] t.skip(a);
        assert(s.skip(a + 1) =~= t.skip(a));
    } else {
        assert(s.skip(0) =~= s);
    }
}

proof fn end_trimmed_is_part(s: Seq<char>)
    ensures
        exists|n: int| 0 <= n <= s.len() && trim_end_of(s) == #[trigger] s.take(n),
    decreases s.len(),
{
    if s.len() > 0 && white(s.last()) {
        let t = s.drop_last();
        end_trimmed_is_part(t);
        let n = choose|n: int| 0 <= n <= t.len() && trim_end_of(t) == #[trigger] t.take(n);
        assert(s.take(n) =~= t.take(n));
    } else {
        assert(s.take(s.len() as int) =~= s);
    }
}

/// `str::trim_end`.
pub fn trim_end(s: &str) -> (r: String)
    ensures
        r@ == trim_end_of(s@),
{
    let chars = chars_of(s);
    let n: usize = chars.len();
    let mut hi: usize = n;
    while hi > 0 && is_white(chars[hi - 1])
        invariant
            hi <= n,
            n == chars@.len(),
            forall|i: int| hi <= i < n ==> white(#[trigger] chars@[i]),
        decreases hi,
    {
        hi -= 1;
    }
    proof {
        lemma_trim_end_at(chars@, hi as int);
        assert(chars@.subrange(0, hi as int) =~= chars@.take(hi as int));
    }
    string_of(&chars, 0, hi)
}

/// Whether `s` has nothing but white space.
pub fn is_blank(s: &str) -> (r: bool)
    ensures
        r == blank(s@),
{
    let chars = chars_of(s);
    let mut i: usize = 0;
    while i < chars.len()
        invariant
            i <= chars@.len(),
            chars@ == s@,
            forall|j: int| 0 <= j < i ==> white(#[trigger] chars@[j]),
        decreases chars@.len() - i,
    {
        if !is_white(chars[i]) {
            assert(!white(s@[i as int]));
            return false;
        }
        i += 1;
    }
    true
}

/// A text trims to nothing exactly when it is blank.
pub proof fn blank_iff_trims_to_nothing(s: Seq<char>)
    ensures
        blank(s) <==> trim_of(s).len() == 0,
{
    lemma_trim_start_blank(s);
    lemma_trim_end_blank(trim_start_of(s));
}

proof fn lemma_trim_start_blank(s: Seq<char>)
    ensures
        blank(s) <==> blank(trim_start_of(s)),
    decreases s.len(),
{
    if s.len() > 0 && white(s.first()) {
        lemma_trim_start_blank(s.drop_first());
        if blank(s.drop_first()) {
            assert forall|i: int| 0 <= i < s.len() implies white(#[trigger] s[i]) by {
                if i > 0 {
                    assert(white(s.drop_first()[i - 1]));
                }
            }
        }
        if blank(s) {
            assert forall|i: int| 0 <= i < s.drop_first().len() implies white(
                #[trigger] s.drop_first()[i],
            ) by {
                assert(white(s[i + 1]));
            }
        }
    }
}

proof fn lemma_trim_end_blank(s: Seq<char>)
    ensures
        blank(s) <==> trim_end_of(s).len() == 0,
    decreases s.len(),
{
    if s.len() > 0 {
        if white(s.last()) {
            lemma_trim_end_blank(s.drop_last());
            if blank(s.drop_last()) {
                assert forall|i: int| 0 <= i < s.len() implies white(#[trigger] s[i]) by {
                    if i < s.len() - 1 {
                        assert(white(s.drop_last()[i]));
                    }
                }
            }
            if blank(s) {
                assert forall|i: int| 0 <= i < s.drop_last().len() implies white(
                    #[trigger] s.drop_last()[i],
                ) by {
                    assert(white(s[i]));
                }
            }
        } else {
            assert(!white(s[s.len() - 1]));
        }
    }
}

// ---------------------------------------------------------------------------
// Case
// ---------------------------------------------------------------------------

/// `c` in lower case, if it is an ASCII letter.
pub open spec fn ascii_lower_char(c: char) -> char {
    if 'A' <= c <= 'Z' {
        (c as u32 + 32) as char
    } else {
        c
    }
}

/// `s` with its ASCII letters in lower case.
pub open spec fn ascii_lower(s: Seq<char>) -> Seq<char> {
    s.map_values(|c: char| ascii_lower_char(c))
}

/// `c` in upper case, if it is an ASCII letter.
pub open spec fn ascii_upper_char(c: char) -> char {
    if 'a' <= c <= 'z' {
        (c as u32 - 32) as char
    } else {
        c
    }
}

/// `s` with its ASCII letters in upper case.
pub open spec fn ascii_upper(s: Seq<char>) -> Seq<char> {
    s.map_values(|c: char| ascii_upper_char(c))
}

/// `c` in lower case, if it is an ASCII letter.
pub fn lower_char(c: char) -> (r: char)
    ensures
        r == ascii_lower_char(c),
{
    match c {
        'A' => 'a',
        'B' => 'b',
        'C' => 'c',
        'D' => 'd',
        'E' => 'e',
        'F' => 'f',
        'G' => 'g',
        'H' => 'h',
        'I' => 'i',
        'J' => 'j',
        'K' => 'k',
        'L' => 'l',
        'M' => 'm',
        'N' => 'n',
        'O' => 'o',
        'P' => 'p',
        'Q' => 'q',
        'R' => 'r',
        'S' => 's',
        'T' => 't',
        'U' => 'u',
        'V' => 'v',
        'W' => 'w',
        'X' => 'x',
        'Y' => 'y',
        'Z' => 'z',
        _ => c,
    }
}

/// `c` in upper case, if it is an ASCII letter.
pub fn upper_char(c: char) -> (r: char)
    ensures
        r == ascii_upper_char(c),
{
    match c {
        'a' => 'A',
        'b' => 'B',
        'c' => 'C',
        'd' => 'D',
        'e' => 'E',
        'f' => 'F',
        'g' => 'G',
        'h' => 'H',
        'i' => 'I',
        'j' => 'J',
        'k' => 'K',
        'l' => 'L',
        'm' => 'M',
        'n' => 'N',
        'o' => 'O',
        'p' => 'P',
        'q' => 'Q',
        'r' => 'R',
        's' => 'S',
        't' => 'T',
        'u' => 'U',
        'v' => 'V',
        'w' => 'W',
        'x' => 'X',
        'y' => 'Y',
        'z' => 'Z',
        _ => c,
    }
}

/// `str::to_ascii_lowercase`.
pub fn to_ascii_lower(s: &str) -> (r: String)
    ensures
        r@ == ascii_lower(s@),
{
    let chars = chars_of(s);
    let mut out = String::new();
    let mut i: usize = 0;
    while i < chars.len()
        invariant
            i <= chars@.len(),
            out@ == ascii_lower(chars@.take(i as int)),
        decreases chars@.len() - i,
    {
        out.push(lower_char(chars[i]));
        assert(ascii_lower(chars@.take(i + 1)) =~= ascii_lower(chars@.take(i as int)).push(
            ascii_lower_char(chars@[i as int]),
        ));
        i += 1;
    }
    assert(chars@.take(chars@.len() as int) =~= chars@);
    out
}

/// `str::to_ascii_uppercase`.
pub fn to_ascii_upper(s: &str) -> (r: String)
    ensures
        r@ == ascii_upper(s@),
{
    let chars = chars_of(s);
    let mut out = String::new();
    let mut i: usize = 0;
    while i < chars.len()
        invariant
            i <= chars@.len(),
            out@ == ascii_upper(chars@.take(i as int)),
        decreases chars@.len() - i,
    {
        out.push(upper_char(chars[i]));
        assert(ascii_upper(chars@.take(i + 1)) =~= ascii_upper(chars@.take(i as int)).push(
            ascii_upper_char(chars@[i as int]),
        ));
        i += 1;
    }
    assert(chars@.take(chars@.len() as int) =~= chars@);
    out
}

/// Every character is an ASCII character.
pub open spec fn ascii_only(s: Seq<char>) -> bool {
    forall|i: int| 0 <= i < s.len() ==> #[trigger] s[i] <= '\u{7f}'
}

/// A text in lower case, as Unicode defines it.
pub uninterp spec fn lowercase(s: Seq<char>) -> Seq<char>;

/// A text of characters that occur in `source`, and of ASCII characters other
/// than capital letters.
pub open spec fn drawn_from(s: Seq<char>, source: Seq<char>) -> bool {
    forall|i: int|
        0 <= i < s.len() ==> source.contains(#[trigger] s[i]) || (s[i] <= '\u{7f}' && !('A'
            <= s[i] <= 'Z'))
}

/// `str::to_lowercase`: the text in lower case, which depends on the text alone.
/// Of an ASCII text, its letters are those in lower case and the rest stays. The
/// characters of the result are in lower case already, as are the ASCII ones
/// other than capital letters: a text drawn from those stays as it is.
#[verifier::external_body]
pub(crate) fn to_lower(s: &str) -> (r: String)
    ensures
        r@ == lowercase(s@),
        ascii_only(s@) ==> r@ == ascii_lower(s@),
        forall|t: Seq<char>| drawn_from(t, r@) ==> #[trigger] lowercase(t) == t,
{
    s.to_lowercase()
}

/// The strings of `list`, for looking them up.
pub fn text_set(list: &[String]) -> (r: StringHashMap<bool>)
    ensures
        forall|x: Seq<char>| #[trigger] r@.contains_key(x) <==> views(list@).contains(x),
{
    let ghost all = views(list@);
    let mut held: StringHashMap<bool> = StringHashMap::new();
    let mut n: usize = 0;
    while n < list.len()
        invariant
            n <= list@.len(),
            all == views(list@),
            forall|x: Seq<char>| #[trigger]
                held@.contains_key(x) <==> all.take(n as int).contains(x),
        decreases list@.len() - n,
    {
        let ghost before = held@;
        let ghost upto = all.take(n + 1);
        held.insert(owned(list[n].as_str()), true);
        proof {
            let old = all.take(n as int);
            assert(upto =~= old.push(all[n as int]));
            assert forall|x: Seq<char>| #[trigger] held@.contains_key(x) <==> upto.contains(x) by {
                assert(held@.contains_key(x) <==> before.contains_key(x) || x == all[n as int]);
                if old.contains(x) {
                    let k = choose|k: int| 0 <= k < old.len() && old[k] == x;
                    assert(upto[k] == x);
                }
                if upto.contains(x) {
                    let k = choose|k: int| 0 <= k < upto.len() && upto[k] == x;
                    if k < old.len() {
                        assert(old[k] == x);
                    }
                }
                assert(upto[n as int] == all[n as int]);
            }
        }
        n += 1;
    }
    assert(all.take(all.len() as int) =~= all);
    held
}

} // verus!
