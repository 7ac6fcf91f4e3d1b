//! Facts about filtered sequences.

use vstd::prelude::*;

verus! {

/// Taking one more element of a sequence through a filter.
pub proof fn filter_step<A>(s: Seq<A>, i: int, pred: spec_fn(A) -> bool)
    requires
        0 <= i < s.len(),
    ensures
        s.take(i + 1).filter(pred) == (if pred(s[i]) {
            s.take(i).filter(pred).push(s[i])
        } else {
            s.take(i).filter(pred)
        }),
{
    s.take(i).lemma_filter_push(s[i], pred);
    assert(s.take(i).push(s[i]) =~= s.take(i + 1));
}

/// Nothing goes through a filter from an empty beginning, and all of a
/// sequence from its whole length.
pub proof fn filter_ends<A>(s: Seq<A>, pred: spec_fn(A) -> bool)
    ensures
        s.take(0).filter(pred) == Seq::<A>::empty(),
        s.take(s.len() as int) == s,
{
    reveal(Seq::filter);
    assert(s.take(0) =~= Seq::<A>::empty());
    assert(s.take(s.len() as int) =~= s);
}

/// What goes through a filter keeps its order.
pub proof fn filter_keeps_order<A>(s: Seq<A>, pred: spec_fn(A) -> bool, i: int, j: int)
    requires
        0 <= i < j < s.filter(pred).len(),
    ensures
        exists|a: int, b: int|
            #![trigger s[a], s[b]]
            0 <= a < b < s.len() && s[a] == s.filter(pred)[i] && s[b] == s.filter(pred)[j],
    decreases s.len(),
{
    reveal(Seq::filter);
    let head = s.drop_last();
    let old = head.filter(pred);
    if j < old.len() {
        filter_keeps_order(head, pred, i, j);
        let (a, b) = choose|a: int, b: int|
            #![trigger head[a], head[b]]
            0 <= a < b < head.len() && head[a] == old[i] && head[b] == old[j];
        assert(s[a] == head[a] && s[b] == head[b]);
    } else {
        head.lemma_filter_contains_rev(pred, old[i]);
        let a = choose|a: int| 0 <= a < head.len() && head[a] == old[i];
        assert(s[a] == head[a]);
        assert(s[s.len() - 1] == s.last());
    }
}

/// What goes through a filter from a beginning stands at the beginning of what
/// goes through from the whole.
pub proof fn prefix_of_filter<A>(s: Seq<A>, i: int, pred: spec_fn(A) -> bool)
    requires
        0 <= i <= s.len(),
    ensures
        s.take(i).filter(pred).len() <= s.filter(pred).len(),
        forall|k: int|
            0 <= k < s.take(i).filter(pred).len() ==> #[trigger] s.filter(pred)[k] == s.take(
                i,
            ).filter(pred)[k],
    decreases s.len() - i,
{
    if i == s.len() {
        assert(s.take(i) =~= s);
    } else {
        filter_step(s, i, pred);
        prefix_of_filter(s, i + 1, pred);
        assert forall|k: int| 0 <= k < s.take(i).filter(pred).len() implies #[trigger] s.filter(
            pred,
        )[k] == s.take(i).filter(pred)[k] by {
            assert(s.take(i + 1).filter(pred)[k] == s.take(i).filter(pred)[k]);
        }
    }
}

/// Two filters that agree on every element let the same through.
pub proof fn filters_agree<A>(s: Seq<A>, p: spec_fn(A) -> bool, q: spec_fn(A) -> bool)
    requires
        forall|i: int| 0 <= i < s.len() ==> p(#[trigger] s[i]) == q(s[i]),
    ensures
        s.filter(p) == s.filter(q),
    decreases s.len(),
{
    reveal(Seq::filter);
    if s.len() > 0 {
        let head = s.drop_last();
        assert forall|i: int| 0 <= i < head.len() implies p(#[trigger] head[i]) == q(head[i]) by {
            assert(head[i] == s[i]);
        }
        filters_agree(head, p, q);
        assert(p(s[s.len() - 1]) == q(s[s.len() - 1]));
    }
}

/// Filtering the images of elements is taking the images of those elements
/// whose image goes through.
pub proof fn filter_of_map<A, B>(
    s: Seq<A>,
    f: spec_fn(A) -> B,
    p: spec_fn(B) -> bool,
    q: spec_fn(A) -> bool,
)
    requires
        forall|i: int| 0 <= i < s.len() ==> p(f(#[trigger] s[i])) == q(s[i]),
    ensures
        s.map_values(f).filter(p) == s.filter(q).map_values(f),
    decreases s.len(),
{
    reveal(Seq::filter);
    if s.len() == 0 {
        assert(s.map_values(f).filter(p) =~= s.filter(q).map_values(f));
    } else {
        let head = s.drop_last();
        assert forall|i: int| 0 <= i < head.len() implies p(f(#[trigger] head[i])) == q(
            head[i],
        ) by {
            assert(head[i] == s[i]);
        }
        filter_of_map(head, f, p, q);
        assert(s.map_values(f).drop_last() =~= head.map_values(f));
        assert(p(f(s[s.len() - 1])) == q(s[s.len() - 1]));
        assert(s.map_values(f).filter(p) =~= s.filter(q).map_values(f));
    }
}

/// What a filter lets through is there and accepted, and what is there and
/// accepted is let through.
pub proof fn filter_members<A>(s: Seq<A>, p: spec_fn(A) -> bool)
    ensures
        forall|x: A| #[trigger] s.filter(p).contains(x) <==> s.contains(x) && p(x),
        forall|i: int| 0 <= i < s.filter(p).len() ==> p(#[trigger] s.filter(p)[i]) && s.contains(
            s.filter(p)[i],
        ),
{
    broadcast use vstd::seq_lib::group_filter_ensures;

    assert forall|x: A| #[trigger] s.filter(p).contains(x) implies s.contains(x) && p(x) by {
        s.lemma_filter_contains_rev(p, x);
        let i = choose|i: int| 0 <= i < s.filter(p).len() && s.filter(p)[i] == x;
        assert(p(s.filter(p)[i]));
    }
    assert forall|i: int| 0 <= i < s.filter(p).len() implies p(#[trigger] s.filter(p)[i])
        && s.contains(s.filter(p)[i]) by {
        assert(s.filter(p).contains(s.filter(p)[i]));
    }
}

} // verus!
