//! Histograms of texts, most frequent first.

use vstd::hash_map::StringHashMap;
use vstd::prelude::*;

use crate::storage::refs::equal_to;
use crate::text::{owned, views};

verus! {

/// How often `x` occurs among the names.
pub open spec fn count_of(names: Seq<Seq<char>>, x: Seq<char>) -> nat {
    names.filter(equal_to(x)).len()
}

/// The views of counted names.
pub open spec fn count_views(counts: Seq<(String, usize)>) -> Seq<(Seq<char>, nat)> {
    counts.map_values(|c: (String, usize)| (c.0@, c.1 as nat))
}

/// Some row is about `x`.
pub open spec fn named_in(rows: Seq<(Seq<char>, nat)>, x: Seq<char>) -> bool {
    exists|i: int| 0 <= i < rows.len() && (#[trigger] rows[i]).0 == x
}

/// Every name occurs once, with how often it stands among `names`, and none
/// stands before a more frequent one.
pub open spec fn histogram_of(names: Seq<Seq<char>>, counts: Seq<(Seq<char>, nat)>) -> bool {
    &&& forall|i: int, j: int|
        #![trigger counts[i], counts[j]]
        0 <= i < j < counts.len() ==> counts[i].0 != counts[j].0 && counts[i].1 >= counts[j].1
    &&& forall|i: int|
        0 <= i < counts.len() ==> (#[trigger] counts[i]).1 == count_of(names, counts[i].0)
            && names.contains(counts[i].0)
    &&& forall|x: Seq<char>| #[trigger] names.contains(x) ==> named_in(counts, x)
}

proof fn count_step(names: Seq<Seq<char>>, i: int, x: Seq<char>)
    requires
        0 <= i < names.len(),
    ensures
        count_of(names.take(i + 1), x) == count_of(names.take(i), x) + (if names[i] == x {
            1nat
        } else {
            0
        }),
{
    names.take(i).lemma_filter_push(names[i], equal_to(x));
    assert(names.take(i).push(names[i]) =~= names.take(i + 1));
}

/// What occurs is counted, and nothing more often than there are names.
pub proof fn count_is_positive_iff_contained(names: Seq<Seq<char>>, x: Seq<char>)
    ensures
        count_of(names, x) > 0 <==> names.contains(x),
        count_of(names, x) <= names.len(),
    decreases names.len(),
{
    reveal(Seq::filter);
    if names.len() > 0 {
        let head = names.drop_last();
        count_is_positive_iff_contained(head, x);
        assert(names.last() == names[names.len() - 1]);
        if head.contains(x) {
            let k = choose|k: int| 0 <= k < head.len() && head[k] == x;
            assert(names[k] == x);
        }
        if names.contains(x) && names.last() != x {
            let k = choose|k: int| 0 <= k < names.len() && names[k] == x;
            assert(head[k] == x);
        }
    }
}

/// Puts one counted name behind all that are at least as frequent.
fn insert_counted(counts: &mut Vec<(String, usize)>, name: String, count: usize)
    requires
        forall|i: int, j: int|
            0 <= i < j < old(counts)@.len() ==> (#[trigger] old(counts)@[i]).1 >= (
            #[trigger] old(counts)@[j]).1,
    ensures
        forall|i: int, j: int|
            0 <= i < j < final(counts)@.len() ==> (#[trigger] final(counts)@[i]).1 >= (
            #[trigger] final(counts)@[j]).1,
        exists|k: int|
            0 <= k <= old(counts)@.len() && final(counts)@ == #[trigger] old(counts)@.insert(
                k,
                (name, count),
            ),
{
    let mut k: usize = counts.len();
    while k > 0 && counts[k - 1].1 < count
        invariant
            k <= counts@.len(),
            *counts == *old(counts),
            forall|j: int| k <= j < counts@.len() ==> (#[trigger] counts@[j]).1 < count,
        decreases k,
    {
        k -= 1;
    }
    let ghost before = counts@;
    assert(forall|j: int| 0 <= j < k ==> (#[trigger] before[j]).1 >= count) by {
        if k > 0 {
            assert(before[k - 1].1 >= count);
        }
    }
    counts.insert(k, (name, count));
    assert forall|i: int, j: int| 0 <= i < j < counts@.len() implies (#[trigger] counts@[i]).1 >= (
    #[trigger] counts@[j]).1 by {
        let a = if i < k { before[i].1 } else if i == k { count } else { before[i - 1].1 };
        let b = if j < k { before[j].1 } else if j == k { count } else { before[j - 1].1 };
        assert(counts@[i].1 == a);
        assert(counts@[j].1 == b);
    }
}

/// The histogram of the names, most frequent first.
pub fn tally(names: &Vec<String>) -> (r: Vec<(String, usize)>)
    ensures
        histogram_of(views(names@), count_views(r@)),
{
    let ghost all = views(names@);
    let mut counts: StringHashMap<usize> = StringHashMap::new();
    let mut order: Vec<String> = Vec::new();
    let mut i: usize = 0;
    assert forall|x: Seq<char>| count_of(#[trigger] all.take(0), x) == 0 by {
        reveal(Seq::filter);
    }
    while i < names.len()
        invariant
            i <= names@.len(),
            all == views(names@),
            forall|x: Seq<char>| #[trigger]
                counts@.contains_key(x) <==> count_of(all.take(i as int), x) > 0,
            forall|x: Seq<char>| #[trigger]
                counts@.contains_key(x) ==> counts@[x] == count_of(all.take(i as int), x)
                    && counts@[x] <= i,
            forall|a: int, b: int|
                0 <= a < b < order@.len() ==> (#[trigger] order@[a])@ != (#[trigger] order@[b])@,
            forall|a: int| 0 <= a < order@.len() ==> counts@.contains_key((#[trigger] order@[a])@),
            forall|x: Seq<char>| #[trigger]
                counts@.contains_key(x) ==> exists|a: int|
                    0 <= a < order@.len() && (#[trigger] order@[a])@ == x,
        decreases names@.len() - i,
    {
        let ghost before = counts@;
        let ghost had = order@;
        let name = names[i].as_str();
        proof {
            assert forall|x: Seq<char>| count_of(#[trigger] all.take(i + 1), x) == count_of(
                all.take(i as int),
                x,
            ) + (if all[i as int] == x {
                1nat
            } else {
                0
            }) by {
                count_step(all, i as int, x);
            }
        }
        let next: usize = match counts.get(name) {
            Some(n) => *n + 1,
            None => 1,
        };
        if next == 1 {
            order.push(owned(name));
            assert(!before.contains_key(name@));
        }
        counts.insert(owned(name), next);
        assert forall|x: Seq<char>| #[trigger] counts@.contains_key(x) implies exists|a: int|
            0 <= a < order@.len() && (#[trigger] order@[a])@ == x by {
            if x == name@ && next == 1 {
                assert(order@[had.len() as int]@ == x);
            } else {
                assert(before.contains_key(x));
                let a = choose|a: int| 0 <= a < had.len() && (#[trigger] had[a])@ == x;
                assert(order@[a]@ == x);
            }
        }
        i += 1;
    }
    assert(all.take(all.len() as int) =~= all);
    proof {
        assert forall|x: Seq<char>| #[trigger] all.contains(x) implies views(order@).contains(
            x,
        ) by {
            count_is_positive_iff_contained(all, x);
            assert(counts@.contains_key(x));
            let a = choose|a: int| 0 <= a < order@.len() && (#[trigger] order@[a])@ == x;
            assert(views(order@)[a] == x);
        }
        assert forall|a: int| 0 <= a < views(order@).len() implies all.contains(
            #[trigger] views(order@)[a],
        ) by {
            assert(counts@.contains_key(order@[a]@));
            count_is_positive_iff_contained(all, order@[a]@);
        }
    }
    let out = sort_counted(&order, &counts, Ghost(all));
    proof {
        sorted_is_histogram(all, views(order@), count_views(out@));
    }
    out
}

/// The first `k` names of `order` stand among the rows, each once, with their
/// counts, and nothing else does.
spec fn placed(
    all: Seq<Seq<char>>,
    order: Seq<Seq<char>>,
    k: int,
    rows: Seq<(Seq<char>, nat)>,
) -> bool {
    &&& forall|i: int, j: int|
        #![trigger rows[i], rows[j]]
        0 <= i < j < rows.len() ==> rows[i].0 != rows[j].0 && rows[i].1 >= rows[j].1
    &&& forall|i: int| 0 <= i < rows.len() ==> (#[trigger] rows[i]).1 == count_of(all, rows[i].0)
    &&& forall|i: int| 0 <= i < rows.len() ==> order.take(k).contains((#[trigger] rows[i]).0)
    &&& forall|a: int| 0 <= a < k ==> named_in(rows, #[trigger] order[a])
}

proof fn place_one(
    all: Seq<Seq<char>>,
    order: Seq<Seq<char>>,
    k: int,
    rows: Seq<(Seq<char>, nat)>,
    at: int,
)
    requires
        0 <= k < order.len(),
        0 <= at <= rows.len(),
        placed(all, order, k, rows),
        forall|a: int, b: int|
            #![trigger order[a], order[b]]
            0 <= a < b < order.len() ==> order[a] != order[b],
        forall|i: int, j: int|
            #![trigger rows.insert(at, (order[k], count_of(all, order[k])))[i], rows.insert(at, (order[k], count_of(all, order[k])))[j]]
            0 <= i < j <= rows.len() ==> rows.insert(at, (order[k], count_of(all, order[k])))[i].1
                >= rows.insert(at, (order[k], count_of(all, order[k])))[j].1,
    ensures
        placed(all, order, k + 1, rows.insert(at, (order[k], count_of(all, order[k])))),
{
    let pair = (order[k], count_of(all, order[k]));
    let after = rows.insert(at, pair);
    assert forall|i: int| 0 <= i < rows.len() implies (#[trigger] rows[i]).0 != order[k] by {
        let names = order.take(k);
        assert(names.contains(rows[i].0));
        let a = choose|a: int| 0 <= a < names.len() && names[a] == rows[i].0;
        assert(order[a] == rows[i].0);
        assert(order[a] != order[k]);
    }
    assert forall|i: int, j: int|
        #![trigger after[i], after[j]]
        0 <= i < j < after.len() implies after[i].0 != after[j].0 && after[i].1 >= after[j].1 by {
        let x = if i < at { rows[i] } else if i == at { pair } else { rows[i - 1] };
        let y = if j < at { rows[j] } else if j == at { pair } else { rows[j - 1] };
        assert(after[i] == x);
        assert(after[j] == y);
    }
    assert forall|i: int| 0 <= i < after.len() implies (#[trigger] after[i]).1 == count_of(
        all,
        after[i].0,
    ) && order.take(k + 1).contains(after[i].0) by {
        if i == at {
            assert(order.take(k + 1)[k] == after[i].0);
        } else {
            let o = if i < at { i } else { i - 1 };
            assert(after[i] == rows[o]);
            let names = order.take(k);
            let a = choose|a: int| 0 <= a < names.len() && names[a] == rows[o].0;
            assert(order.take(k + 1)[a] == rows[o].0);
        }
    }
    assert forall|a: int| 0 <= a < k + 1 implies named_in(after, #[trigger] order[a]) by {
        if a == k {
            assert(after[at].0 == order[a]);
        } else {
            let o = choose|o: int| 0 <= o < rows.len() && (#[trigger] rows[o]).0 == order[a];
            let i = if o < at { o } else { o + 1 };
            assert(after[i] == rows[o]);
        }
    }
}

proof fn sorted_is_histogram(
    all: Seq<Seq<char>>,
    order: Seq<Seq<char>>,
    rows: Seq<(Seq<char>, nat)>,
)
    requires
        placed(all, order, order.len() as int, rows),
        forall|x: Seq<char>| #[trigger] all.contains(x) ==> order.contains(x),
        forall|a: int| 0 <= a < order.len() ==> all.contains(#[trigger] order[a]),
    ensures
        histogram_of(all, rows),
{
    assert(order.take(order.len() as int) =~= order);
    assert forall|i: int| 0 <= i < rows.len() implies all.contains((#[trigger] rows[i]).0) by {
        assert(order.contains(rows[i].0));
        let a = choose|a: int| 0 <= a < order.len() && order[a] == rows[i].0;
        assert(all.contains(order[a]));
    }
    assert forall|x: Seq<char>| #[trigger] all.contains(x) implies named_in(rows, x) by {
        let a = choose|a: int| 0 <= a < order.len() && order[a] == x;
        assert(named_in(rows, order[a]));
    }
}

/// The counted names of `order`, most frequent first.
fn sort_counted(order: &Vec<String>, counts: &StringHashMap<usize>, all: Ghost<Seq<Seq<char>>>) -> (r:
    Vec<(String, usize)>)
    requires
        forall|a: int, b: int|
            0 <= a < b < order@.len() ==> (#[trigger] order@[a])@ != (#[trigger] order@[b])@,
        forall|a: int|
            0 <= a < order@.len() ==> counts@.contains_key((#[trigger] order@[a])@)
                && counts@[order@[a]@] == count_of(all@, order@[a]@),
    ensures
        placed(all@, views(order@), order@.len() as int, count_views(r@)),
{
    let ghost names = views(order@);
    let mut out: Vec<(String, usize)> = Vec::new();
    let mut k: usize = 0;
    while k < order.len()
        invariant
            k <= order@.len(),
            names == views(order@),
            forall|a: int, b: int|
                0 <= a < b < order@.len() ==> (#[trigger] order@[a])@ != (#[trigger] order@[b])@,
            forall|a: int|
                0 <= a < order@.len() ==> counts@.contains_key((#[trigger] order@[a])@)
                    && counts@[order@[a]@] == count_of(all@, order@[a]@),
            placed(all@, names, k as int, count_views(out@)),
        decreases order@.len() - k,
    {
        let ghost before = out@;
        let ghost rows = count_views(before);
        let name = owned(order[k].as_str());
        let count: usize = match counts.get(order[k].as_str()) {
            Some(n) => *n,
            None => 0,
        };
        let ghost pair = (name, count);
        assert forall|i: int, j: int| 0 <= i < j < out@.len() implies (#[trigger] out@[i]).1 >= (
        #[trigger] out@[j]).1 by {
            assert(rows[i] == (before[i].0@, before[i].1 as nat));
            assert(rows[j] == (before[j].0@, before[j].1 as nat));
        }
        insert_counted(&mut out, name, count);
        proof {
            let at = choose|at: int|
                0 <= at <= before.len() && out@ == #[trigger] before.insert(at, pair);
            let placed_pair = (names[k as int], count_of(all@, names[k as int]));
            assert(order@[k as int]@ == names[k as int]);
            let after = rows.insert(at, placed_pair);
            assert(count_views(out@) =~= after);
            assert forall|i: int, j: int|
                #![trigger after[i], after[j]]
                0 <= i < j <= rows.len() implies after[i].1 >= after[j].1 by {
                assert(after[i].1 == out@[i].1);
                assert(after[j].1 == out@[j].1);
            }
            assert forall|a: int, b: int|
                #![trigger names[a], names[b]]
                0 <= a < b < names.len() implies names[a] != names[b] by {
                assert(names[a] == order@[a]@ && names[b] == order@[b]@);
            }
            place_one(all@, names, k as int, rows, at);
        }
        k += 1;
    }
    out
}

} // verus!
