//! The spellings of times sort as the times do.

use vstd::prelude::*;
use vstd::string::*;

use crate::calendar::{
    civil_date, date_of_day, dates_are_ordered, every_day_has_a_date, utc_text,
    year_has_four_digits,
};
use crate::ingest::datapoints::iso_text;
use crate::number::{dec, digit, pad_int, zero_pad};
use crate::storage::groups::{before, before_is_total};

verus! {

/// Ten to the power of `width`.
pub open spec fn tens(width: nat) -> nat
    decreases width,
{
    if width == 0 {
        1
    } else {
        10 * tens((width - 1) as nat)
    }
}

/// What differs in front keeps its order whatever follows.
proof fn order_of_fronts(a: Seq<char>, b: Seq<char>, x: Seq<char>, y: Seq<char>)
    requires
        a.len() == b.len(),
        before(a, b),
    ensures
        before(a + x, b + y),
    decreases a.len(),
{
    assert((a + x)[0] == a[0] && (b + y)[0] == b[0]);
    if a[0] == b[0] {
        order_of_fronts(a.skip(1), b.skip(1), x, y);
        assert((a + x).skip(1) =~= a.skip(1) + x);
        assert((b + y).skip(1) =~= b.skip(1) + y);
    }
}

/// What begins alike has the order of what follows.
proof fn order_of_tails(p: Seq<char>, x: Seq<char>, y: Seq<char>)
    requires
        before(x, y),
    ensures
        before(p + x, p + y),
    decreases p.len(),
{
    if p.len() == 0 {
        assert(p + x =~= x);
        assert(p + y =~= y);
    } else {
        order_of_tails(p.skip(1), x, y);
        assert((p + x).skip(1) =~= p.skip(1) + x);
        assert((p + y).skip(1) =~= p.skip(1) + y);
        assert((p + x)[0] == (p + y)[0]);
    }
}

/// A padded number is the padded number of its tens, and its last digit.
proof fn last_digit(n: nat, width: nat)
    requires
        width >= 2,
    ensures
        pad_int(n as int, width as int) == pad_int((n / 10) as int, width - 1).push(
            digit((n % 10) as int),
        ),
{
    let front = zero_pad(dec(n / 10), width - 1);
    if n < 10 {
        assert(dec(n / 10) =~= seq![digit(0)]);
        assert(digit(0) == '0');
    }
    assert(zero_pad(dec(n), width as int) =~= front.push(digit((n % 10) as int)));
}

/// A number that fits is padded to the width.
proof fn padded_width(n: nat, width: nat)
    requires
        width >= 1,
        n < tens(width),
    ensures
        pad_int(n as int, width as int).len() == width,
    decreases width,
{
    reveal_with_fuel(tens, 2);
    if width > 1 {
        last_digit(n, width);
        padded_width(n / 10, (width - 1) as nat);
    }
}

/// The greater of two padded numbers sorts later.
proof fn padded_order(a: nat, b: nat, width: nat)
    requires
        width >= 1,
        a < b < tens(width),
    ensures
        before(pad_int(a as int, width as int), pad_int(b as int, width as int)),
    decreases width,
{
    reveal_with_fuel(tens, 2);
    if width > 1 {
        last_digit(a, width);
        last_digit(b, width);
        padded_width(a / 10, (width - 1) as nat);
        padded_width(b / 10, (width - 1) as nat);
        let p = pad_int((a / 10) as int, width - 1);
        let q = pad_int((b / 10) as int, width - 1);
        let x = seq![digit((a % 10) as int)];
        let y = seq![digit((b % 10) as int)];
        assert(p.push(digit((a % 10) as int)) =~= p + x);
        assert(q.push(digit((b % 10) as int)) =~= q + y);
        if a / 10 < b / 10 {
            padded_order(a / 10, b / 10, (width - 1) as nat);
            order_of_fronts(p, q, x, y);
        } else {
            assert(a % 10 < b % 10);
            order_of_tails(p, x, y);
        }
    }
}

/// Two texts that are equally long, and in order or the same.
spec fn in_order(a: Seq<char>, b: Seq<char>) -> bool {
    a.len() == b.len() && (a == b || before(a, b))
}

/// Texts with one more number behind them are in order where the texts are, or
/// the texts are the same and the numbers are in order.
proof fn next_field(
    a: Seq<char>,
    b: Seq<char>,
    between: Seq<char>,
    m: int,
    n: int,
    width: nat,
)
    requires
        in_order(a, b),
        width >= 1,
        0 <= m < tens(width),
        0 <= n < tens(width),
    ensures
        ({
            let x = a + between + pad_int(m, width as int);
            let y = b + between + pad_int(n, width as int);
            &&& x.len() == a.len() + between.len() + width
            &&& y.len() == x.len()
            &&& a != b ==> before(x, y) && x != y
            &&& a == b && m < n ==> before(x, y) && x != y
            &&& a == b && m == n ==> x == y
        }),
{
    let p = pad_int(m, width as int);
    let q = pad_int(n, width as int);
    padded_width(m as nat, width);
    padded_width(n as nat, width);
    before_is_total(a + between + p, b + between + q);
    assert(a + between + p =~= a + (between + p));
    assert(b + between + q =~= b + (between + q));
    if a != b {
        order_of_fronts(a, b, between + p, between + q);
    } else if m < n {
        padded_order(m as nat, n as nat, width);
        order_of_tails(a + between, p, q);
    }
}

/// The earlier of two days has the earlier date, in years of four digits.
proof fn days_are_ordered(a: int, b: int)
    requires
        -719_528 <= a <= b <= 2_932_896,
    ensures
        ({
            let (y1, m1, d1) = civil_date(a);
            let (y2, m2, d2) = civil_date(b);
            &&& 0 <= y1 <= 9999 && 1 <= m1 <= 12 && 1 <= d1 <= 31
            &&& 0 <= y2 <= 9999 && 1 <= m2 <= 12 && 1 <= d2 <= 31
            &&& a < b ==> y1 < y2 || (y1 == y2 && (m1 < m2 || (m1 == m2 && d1 < d2)))
        }),
{
    let (y1, m1, d1) = civil_date(a);
    let (y2, m2, d2) = civil_date(b);
    every_day_has_a_date(a);
    every_day_has_a_date(b);
    assert(date_of_day(y1, m1, d1, a));
    assert(date_of_day(y2, m2, d2, b));
    year_has_four_digits(y1, m1, d1);
    year_has_four_digits(y2, m2, d2);
    if a < b {
        dates_are_ordered(y1, m1, d1, y2, m2, d2);
    }
}

/// The earlier of two seconds of a day has the earlier time of day.
proof fn times_of_day_are_ordered(a: int, b: int)
    requires
        0 <= a < 86_400,
        0 <= b < 86_400,
    ensures
        0 <= a / 3600 < 24 && 0 <= a % 3600 / 60 < 60 && 0 <= a % 60 < 60,
        0 <= b / 3600 < 24 && 0 <= b % 3600 / 60 < 60 && 0 <= b % 60 < 60,
        a < b ==> a / 3600 < b / 3600 || (a / 3600 == b / 3600 && (a % 3600 / 60 < b % 3600 / 60
            || (a % 3600 / 60 == b % 3600 / 60 && a % 60 < b % 60))),
{
}

/// The spelling of the date that lies `days` days after 1970-01-01.
spec fn date_text(days: int) -> Seq<char> {
    let (y, m, d) = civil_date(days);
    pad_int(y, 4) + "-"@ + pad_int(m, 2) + "-"@ + pad_int(d, 2)
}

/// Dates are spelled in ten characters, and the earlier one sorts earlier.
proof fn date_texts_are_ordered(a: int, b: int)
    requires
        -719_528 <= a <= b <= 2_932_896,
    ensures
        date_text(a).len() == 10,
        date_text(b).len() == 10,
        a < b ==> before(date_text(a), date_text(b)) && date_text(a) != date_text(b),
{
    let empty = Seq::<char>::empty();
    let (y1, m1, d1) = civil_date(a);
    let (y2, m2, d2) = civil_date(b);
    days_are_ordered(a, b);
    reveal_with_fuel(tens, 5);
    reveal_strlit("-");
    let p1 = empty + empty + pad_int(y1, 4);
    let p2 = empty + empty + pad_int(y2, 4);
    next_field(empty, empty, empty, y1, y2, 4);
    assert(p1 =~= pad_int(y1, 4));
    assert(p2 =~= pad_int(y2, 4));
    let q1 = p1 + "-"@ + pad_int(m1, 2);
    let q2 = p2 + "-"@ + pad_int(m2, 2);
    next_field(p1, p2, "-"@, m1, m2, 2);
    next_field(q1, q2, "-"@, d1, d2, 2);
}

/// The earlier of two seconds, or the same one.
#[verifier::spinoff_prover]
proof fn seconds_are_ordered(s: int, t: int, sep: char)
    requires
        -62_167_219_200 <= s <= t <= 253_402_300_799,
    ensures
        utc_text(s, sep).len() == 19,
        utc_text(t, sep).len() == 19,
        s < t ==> before(utc_text(s, sep), utc_text(t, sep)) && utc_text(s, sep) != utc_text(t, sep),
{
    let r1 = s % 86_400;
    let r2 = t % 86_400;
    let e1 = date_text(s / 86_400);
    let e2 = date_text(t / 86_400);
    date_texts_are_ordered(s / 86_400, t / 86_400);
    times_of_day_are_ordered(r1, r2);
    reveal_with_fuel(tens, 3);
    reveal_strlit(":");
    let f1 = e1 + seq![sep] + pad_int(r1 / 3600, 2);
    let f2 = e2 + seq![sep] + pad_int(r2 / 3600, 2);
    next_field(e1, e2, seq![sep], r1 / 3600, r2 / 3600, 2);
    let g1 = f1 + ":"@ + pad_int(r1 % 3600 / 60, 2);
    let g2 = f2 + ":"@ + pad_int(r2 % 3600 / 60, 2);
    next_field(f1, f2, ":"@, r1 % 3600 / 60, r2 % 3600 / 60, 2);
    next_field(g1, g2, ":"@, r1 % 60, r2 % 60, 2);
    assert(g1 + ":"@ + pad_int(r1 % 60, 2) == utc_text(s, sep));
    assert(g2 + ":"@ + pad_int(r2 % 60, 2) == utc_text(t, sep));
}

/// Later times have later spellings: in the years from 0000 to 9999 the texts of
/// times sort as the times do. Each has 26 characters, of which the first 19 are
/// the text of the second, with a `T` for the space.
#[verifier::spinoff_prover]
#[verifier::rlimit(30)]
pub proof fn iso_texts_sort_by_time(a: int, b: int)
    requires
        -62_167_219_200_000 <= a < b <= 253_402_300_799_999,
    ensures
        before(iso_text(a), iso_text(b)),
        iso_text(a).len() == 26,
        iso_text(b).len() == 26,
        iso_text(a).take(19) == utc_text(a / 1000, ' ').update(10, 'T'),
        iso_text(b).take(19) == utc_text(b / 1000, ' ').update(10, 'T'),
{
    let s = a / 1000;
    let t = b / 1000;
    seconds_are_ordered(s, t, 'T');
    seconds_are_ordered(s, t, ' ');
    seconds_are_spelled_alike(s);
    seconds_are_spelled_alike(t);
    reveal_strlit(".");
    reveal_with_fuel(tens, 7);
    next_field(utc_text(s, 'T'), utc_text(t, 'T'), "."@, a % 1000 * 1000, b % 1000 * 1000, 6);
    assert(iso_text(a).take(19) =~= utc_text(s, 'T'));
    assert(iso_text(b).take(19) =~= utc_text(t, 'T'));
}

/// What stands between the date and the time of day is the eleventh character.
proof fn seconds_are_spelled_alike(s: int)
    requires
        -62_167_219_200 <= s <= 253_402_300_799,
    ensures
        utc_text(s, 'T') == utc_text(s, ' ').update(10, 'T'),
{
    let days = s / 86_400;
    date_texts_are_ordered(days, days);
    assert(date_text(days).len() == 10);
    assert(utc_text(s, 'T') =~= utc_text(s, ' ').update(10, 'T'));
}

} // verus!
