//! Provenance lists: which data items a row comes from.
//!
//! A list is kept as a text with a bar before, between and behind its entries,
//! as in `|a|b|`; empty entries do not count.

use vstd::prelude::*;
use vstd::string::*;

use crate::pattern::{join, join_of, split_char, split_char_nonempty, split_char_of};
use crate::text::{concat3, has, owned, same, views};

verus! {

/// Accepts every text but the empty one.
pub open spec fn non_empty() -> spec_fn(Seq<char>) -> bool {
    |p: Seq<char>| p.len() > 0
}

/// Accepts every text but `key`.
pub open spec fn other_than(key: Seq<char>) -> spec_fn(Seq<char>) -> bool {
    |p: Seq<char>| p != key
}

/// Accepts `key` alone.
pub open spec fn equal_to(key: Seq<char>) -> spec_fn(Seq<char>) -> bool {
    |p: Seq<char>| p == key
}

/// The entries of a provenance list.
pub open spec fn entries(raw: Seq<char>) -> Seq<Seq<char>> {
    split_char_of(raw, '|').filter(non_empty())
}

/// The entries of a list that may be absent.
pub open spec fn entries_opt(raw: Option<Seq<char>>) -> Seq<Seq<char>> {
    match raw {
        Some(r) => entries(r),
        None => Seq::empty(),
    }
}

/// The list that holds the given entries.
pub open spec fn list_text(parts: Seq<Seq<char>>) -> Seq<char> {
    "|"@ + join_of(parts, "|"@) + "|"@
}

/// The list with `key` added at its end, unless it is there already.
pub open spec fn merged(raw: Option<Seq<char>>, key: Seq<char>) -> Seq<char> {
    if entries_opt(raw).contains(key) {
        raw->0
    } else {
        list_text(entries_opt(raw).push(key))
    }
}

/// The list without `key`; empty where nothing is left.
pub open spec fn stripped(raw: Seq<char>, key: Seq<char>) -> Seq<char> {
    let kept = entries(raw).filter(other_than(key));
    if kept.len() == 0 {
        Seq::empty()
    } else {
        list_text(kept)
    }
}

/// A text that can be an entry: not empty, and without a bar.
pub open spec fn entry_like(key: Seq<char>) -> bool {
    key.len() > 0 && !key.contains('|')
}

// ---------------------------------------------------------------------------
// Executable
// ---------------------------------------------------------------------------

/// `|` before, between and behind the values.
pub fn provenance_list(values: &[String]) -> (r: String)
    ensures
        r@ == list_text(views(values@)),
{
    let inner = join(values, "|");
    concat3("|", inner.as_str(), "|")
}

/// The entries of `raw`, in order.
pub fn split_refs(raw: &str) -> (r: Vec<String>)
    ensures
        views(r@) == entries(raw@),
{
    let pieces = split_char(raw, '|');
    let ghost all = views(pieces@);
    let mut out: Vec<String> = Vec::new();
    let mut i: usize = 0;
    assert(views(out@) =~= all.take(0).filter(non_empty())) by {
        reveal(Seq::filter);
    }
    while i < pieces.len()
        invariant
            i <= pieces@.len(),
            all == views(pieces@),
            views(out@) == all.take(i as int).filter(non_empty()),
        decreases pieces@.len() - i,
    {
        let ghost before = views(out@);
        proof {
            all.take(i as int).lemma_filter_push(all[i as int], non_empty());
            assert(all.take(i as int).push(all[i as int]) =~= all.take(i + 1));
        }
        if pieces[i].as_str().unicode_len() > 0 {
            out.push(owned(pieces[i].as_str()));
            assert(views(out@) =~= before.push(all[i as int]));
        }
        i += 1;
    }
    assert(all.take(all.len() as int) =~= all);
    out
}

/// Appends `ref_key` to a provenance list unless it is already there.
pub fn merge_ref(raw: Option<&str>, ref_key: &str) -> (r: String)
    ensures
        r@ == merged(
            match raw {
                Some(s) => Some(s@),
                None => None,
            },
            ref_key@,
        ),
{
    let mut kept: Vec<String> = match raw {
        Some(s) => split_refs(s),
        None => Vec::new(),
    };
    proof {
        if raw is None {
            assert(views(kept@) =~= Seq::<Seq<char>>::empty());
        }
    }
    let ghost had = views(kept@);
    if has(&kept, ref_key) {
        return match raw {
            Some(s) => owned(s),
            None => String::new(),
        };
    }
    kept.push(owned(ref_key));
    assert(views(kept@) =~= had.push(ref_key@));
    provenance_list(&kept)
}

/// Removes one entry, wherever it occurs, from a provenance list.
pub fn strip_ref(raw: &str, ref_key: &str) -> (r: String)
    ensures
        r@ == stripped(raw@, ref_key@),
{
    let all = split_refs(raw);
    let ghost seen = views(all@);
    let mut kept: Vec<String> = Vec::new();
    let mut i: usize = 0;
    assert(views(kept@) =~= seen.take(0).filter(other_than(ref_key@))) by {
        reveal(Seq::filter);
    }
    while i < all.len()
        invariant
            i <= all@.len(),
            seen == views(all@),
            views(kept@) == seen.take(i as int).filter(other_than(ref_key@)),
        decreases all@.len() - i,
    {
        let ghost before = views(kept@);
        proof {
            seen.take(i as int).lemma_filter_push(seen[i as int], other_than(ref_key@));
            assert(seen.take(i as int).push(seen[i as int]) =~= seen.take(i + 1));
        }
        if !same(all[i].as_str(), ref_key) {
            kept.push(owned(all[i].as_str()));
            assert(views(kept@) =~= before.push(seen[i as int]));
        }
        i += 1;
    }
    assert(seen.take(seen.len() as int) =~= seen);
    if kept.len() == 0 {
        String::new()
    } else {
        provenance_list(&kept)
    }
}

/// How many entries a provenance list carries.
pub fn total_refs(raw: &Option<String>) -> (r: usize)
    ensures
        r == entries_opt(crate::text::opt_view(*raw)).len(),
{
    match raw {
        Some(s) => {
            let all = split_refs(s.as_str());
            assert(views(all@).len() == all@.len());
            all.len()
        },
        None => 0,
    }
}

/// How often `ref_key` stands between the bars of a provenance list.
pub open spec fn occurrences(raw: Option<Seq<char>>, key: Seq<char>) -> nat {
    match raw {
        Some(r) => split_char_of(r, '|').filter(equal_to(key)).len(),
        None => 0,
    }
}

/// How often `ref_key` stands between the bars of a provenance list.
pub fn ref_count(raw: &Option<String>, ref_key: &str) -> (r: usize)
    ensures
        r == occurrences(crate::text::opt_view(*raw), ref_key@),
{
    match raw {
        None => 0,
        Some(s) => {
            let pieces = split_char(s.as_str(), '|');
            let ghost all = views(pieces@);
            let mut count: usize = 0;
            let mut i: usize = 0;
            assert(all.take(0).filter(equal_to(ref_key@)).len() == 0) by {
                reveal(Seq::filter);
            }
            while i < pieces.len()
                invariant
                    i <= pieces@.len(),
                    all == views(pieces@),
                    count <= i,
                    count == all.take(i as int).filter(equal_to(ref_key@)).len(),
                decreases pieces@.len() - i,
            {
                proof {
                    all.take(i as int).lemma_filter_push(all[i as int], equal_to(ref_key@));
                    assert(all.take(i as int).push(all[i as int]) =~= all.take(i + 1));
                }
                if same(pieces[i].as_str(), ref_key) {
                    count += 1;
                }
                i += 1;
            }
            assert(all.take(all.len() as int) =~= all);
            count
        },
    }
}

// ---------------------------------------------------------------------------
// Laws
// ---------------------------------------------------------------------------

proof fn split_of_plain_tail(s: Seq<char>, t: Seq<char>)
    requires
        !t.contains('|'),
    ensures
        split_char_of(s + t, '|') == split_char_of(s, '|').drop_last().push(
            split_char_of(s, '|').last() + t,
        ),
    decreases t.len(),
{
    let pieces = split_char_of(s, '|');
    split_char_nonempty(s, '|');
    if t.len() == 0 {
        assert(s + t =~= s);
        assert(pieces.last() + t =~= pieces.last());
        assert(pieces.drop_last().push(pieces.last()) =~= pieces);
    } else {
        let head = t.drop_last();
        assert(t.last() == t[t.len() - 1]);
        assert(!head.contains('|')) by {
            assert forall|k: int| 0 <= k < head.len() implies head[k] != '|' by {
                assert(head[k] == t[k]);
            }
        }
        split_of_plain_tail(s, head);
        assert((s + t).drop_last() =~= s + head);
        assert((s + t).last() == t.last());
        let before = split_char_of(s + head, '|');
        assert(before.drop_last() =~= pieces.drop_last());
        assert(before.last().push(t.last()) =~= pieces.last() + t);
    }
}

proof fn split_of_bar(s: Seq<char>)
    ensures
        split_char_of(s + "|"@, '|') == split_char_of(s, '|').push(Seq::<char>::empty()),
{
    reveal_strlit("|");
    assert((s + "|"@).drop_last() =~= s);
}

proof fn split_of_open_list(parts: Seq<Seq<char>>)
    requires
        parts.len() > 0,
        forall|i: int| 0 <= i < parts.len() ==> entry_like(#[trigger] parts[i]),
    ensures
        split_char_of("|"@ + join_of(parts, "|"@), '|') == seq![Seq::<char>::empty()] + parts,
    decreases parts.len(),
{
    let empty = Seq::<char>::empty();
    let bar = "|"@;
    if parts.len() == 1 {
        split_of_bar(empty);
        assert(empty + bar =~= bar);
        assert(entry_like(parts[0]));
        split_of_plain_tail(bar, parts[0]);
        assert(split_char_of(empty, '|') =~= seq![empty]);
        assert(empty + parts[0] =~= parts[0]);
        assert(split_char_of(bar + parts[0], '|') =~= seq![empty] + parts);
    } else {
        let head = parts.drop_last();
        assert forall|i: int| 0 <= i < head.len() implies entry_like(#[trigger] head[i]) by {
            assert(head[i] == parts[i]);
        }
        split_of_open_list(head);
        let text = bar + join_of(head, bar);
        split_of_bar(text);
        assert(entry_like(parts[parts.len() - 1]));
        split_of_plain_tail(text + bar, parts.last());
        assert(text + bar + parts.last() =~= bar + join_of(parts, bar));
        assert(empty + parts.last() =~= parts.last());
        assert(split_char_of(text + bar + parts.last(), '|') =~= seq![empty] + parts);
    }
}

proof fn filter_of_accepted(parts: Seq<Seq<char>>, pred: spec_fn(Seq<char>) -> bool)
    requires
        forall|i: int| 0 <= i < parts.len() ==> pred(#[trigger] parts[i]),
    ensures
        parts.filter(pred) == parts,
    decreases parts.len(),
{
    reveal(Seq::filter);
    if parts.len() > 0 {
        let head = parts.drop_last();
        assert forall|i: int| 0 <= i < head.len() implies pred(#[trigger] head[i]) by {
            assert(head[i] == parts[i]);
        }
        filter_of_accepted(head, pred);
        assert(pred(parts[parts.len() - 1]));
        assert(head.push(parts.last()) =~= parts);
    }
}

/// A list made of entries holds those entries, in order.
pub proof fn list_holds_its_entries(parts: Seq<Seq<char>>)
    requires
        forall|i: int| 0 <= i < parts.len() ==> entry_like(#[trigger] parts[i]),
    ensures
        entries(list_text(parts)) == parts,
{
    let empty = Seq::<char>::empty();
    let bar = "|"@;
    let pred = non_empty();
    let text = bar + join_of(parts, bar);
    split_of_bar(text);
    if parts.len() == 0 {
        assert(text =~= bar);
        split_of_bar(empty);
        assert(empty + bar =~= bar);
        assert(split_char_of(empty, '|') =~= seq![empty]);
        assert(split_char_of(list_text(parts), '|') =~= seq![empty].push(empty).push(empty));
        assert(seq![empty] =~= Seq::<Seq<char>>::empty().push(empty));
        Seq::<Seq<char>>::empty().lemma_filter_push(empty, pred);
        seq![empty].lemma_filter_push(empty, pred);
        seq![empty].push(empty).lemma_filter_push(empty, pred);
        assert(Seq::<Seq<char>>::empty().filter(pred) =~= Seq::<Seq<char>>::empty()) by {
            reveal(Seq::filter);
        }
        assert(entries(list_text(parts)) =~= parts);
    } else {
        split_of_open_list(parts);
        let pieces = seq![empty] + parts;
        assert(list_text(parts) =~= text + bar);
        pieces.lemma_filter_push(empty, pred);
        Seq::<Seq<char>>::filter_distributes_over_add(seq![empty], parts, pred);
        assert(seq![empty] =~= Seq::<Seq<char>>::empty().push(empty));
        Seq::<Seq<char>>::empty().lemma_filter_push(empty, pred);
        assert(Seq::<Seq<char>>::empty().filter(pred) =~= Seq::<Seq<char>>::empty()) by {
            reveal(Seq::filter);
        }
        assert forall|i: int| 0 <= i < parts.len() implies pred(#[trigger] parts[i]) by {
            assert(entry_like(parts[i]));
        }
        filter_of_accepted(parts, pred);
        assert(Seq::<Seq<char>>::empty() + parts =~= parts);
    }
}

proof fn pieces_hold_no_bar(s: Seq<char>)
    ensures
        forall|i: int|
            0 <= i < split_char_of(s, '|').len() ==> !(#[trigger] split_char_of(s, '|')[i]).contains(
                '|',
            ),
    decreases s.len(),
{
    let pieces = split_char_of(s, '|');
    if s.len() > 0 {
        split_char_nonempty(s.drop_last(), '|');
        pieces_hold_no_bar(s.drop_last());
        let before = split_char_of(s.drop_last(), '|');
        assert forall|i: int| 0 <= i < pieces.len() implies !(#[trigger] pieces[i]).contains(
            '|',
        ) by {
            if s.last() == '|' {
                if i < before.len() {
                    assert(pieces[i] == before[i]);
                }
            } else if i < before.len() - 1 {
                assert(pieces[i] == before[i]);
            } else {
                let last = before[before.len() - 1];
                assert(pieces[i] == last.push(s.last()));
                assert(!last.contains('|'));
                assert forall|k: int| 0 <= k < pieces[i].len() implies pieces[i][k] != '|' by {
                    if k < last.len() {
                        assert(pieces[i][k] == last[k]);
                    }
                }
            }
        }
    }
}

/// No entry of a list is empty or holds a bar.
pub proof fn entries_are_entry_like(raw: Seq<char>)
    ensures
        forall|i: int| 0 <= i < entries(raw).len() ==> entry_like(#[trigger] entries(raw)[i]),
{
    let pieces = split_char_of(raw, '|');
    pieces_hold_no_bar(raw);
    broadcast use vstd::seq_lib::group_filter_ensures;

    assert forall|i: int| 0 <= i < entries(raw).len() implies entry_like(
        #[trigger] entries(raw)[i],
    ) by {
        let e = entries(raw)[i];
        assert(non_empty()(e));
        assert(pieces.contains(e)) by {
            pieces.lemma_filter_contains_rev(non_empty(), e);
        }
        let k = choose|k: int| 0 <= k < pieces.len() && pieces[k] == e;
        assert(!pieces[k].contains('|'));
    }
}

/// Adding an entry keeps those that were there, in order, and puts it at the
/// end unless it was one of them.
pub proof fn merge_adds_once(raw: Option<Seq<char>>, key: Seq<char>)
    requires
        entry_like(key),
    ensures
        entries(merged(raw, key)) == (if entries_opt(raw).contains(key) {
            entries_opt(raw)
        } else {
            entries_opt(raw).push(key)
        }),
        entries(merged(raw, key)).contains(key),
{
    let had = entries_opt(raw);
    if !had.contains(key) {
        let all = had.push(key);
        if raw is Some {
            entries_are_entry_like(raw->0);
        }
        assert forall|i: int| 0 <= i < all.len() implies entry_like(#[trigger] all[i]) by {
            if i < had.len() {
                assert(all[i] == had[i]);
            }
        }
        list_holds_its_entries(all);
        assert(all[had.len() as int] == key);
    }
}

/// Adding an entry a second time changes nothing.
pub proof fn merge_is_idempotent(raw: Option<Seq<char>>, key: Seq<char>)
    requires
        entry_like(key),
    ensures
        merged(Some(merged(raw, key)), key) == merged(raw, key),
{
    merge_adds_once(raw, key);
}

/// Removing an entry leaves the others, in order.
pub proof fn strip_leaves_the_others(raw: Seq<char>, key: Seq<char>)
    ensures
        entries(stripped(raw, key)) == entries(raw).filter(other_than(key)),
        !entries(stripped(raw, key)).contains(key),
{
    let kept = entries(raw).filter(other_than(key));
    entries_are_entry_like(raw);
    broadcast use vstd::seq_lib::group_filter_ensures;

    if kept.len() == 0 {
        let none = Seq::<char>::empty();
        assert(split_char_of(none, '|') =~= Seq::<Seq<char>>::empty().push(none));
        Seq::<Seq<char>>::empty().lemma_filter_push(none, non_empty());
        assert(Seq::<Seq<char>>::empty().filter(non_empty()) =~= Seq::<Seq<char>>::empty()) by {
            reveal(Seq::filter);
        }
        assert(entries(none) =~= kept);
    } else {
        assert forall|i: int| 0 <= i < kept.len() implies entry_like(#[trigger] kept[i]) by {
            entries(raw).lemma_filter_contains_rev(other_than(key), kept[i]);
            let k = choose|k: int| 0 <= k < entries(raw).len() && entries(raw)[k] == kept[i];
            assert(entry_like(entries(raw)[k]));
        }
        list_holds_its_entries(kept);
    }
    assert forall|i: int| 0 <= i < kept.len() implies kept[i] != key by {
        assert(other_than(key)(kept[i]));
    }
}

/// Removing an entry that was just added gives back what was there.
pub proof fn strip_undoes_merge(raw: Option<Seq<char>>, key: Seq<char>)
    requires
        entry_like(key),
        !entries_opt(raw).contains(key),
    ensures
        entries(stripped(merged(raw, key), key)) == entries_opt(raw),
{
    let had = entries_opt(raw);
    merge_adds_once(raw, key);
    strip_leaves_the_others(merged(raw, key), key);
    had.lemma_filter_push(key, other_than(key));
    assert forall|i: int| 0 <= i < had.len() implies other_than(key)(#[trigger] had[i]) by {}
    filter_of_accepted(had, other_than(key));
}

proof fn filters_by_count(pieces: Seq<Seq<char>>, key: Seq<char>)
    requires
        key.len() > 0,
    ensures
        pieces.filter(equal_to(key)).len() <= pieces.filter(non_empty()).len(),
        pieces.filter(equal_to(key)).len() == pieces.filter(non_empty()).len() <==> (forall|i: int|
            0 <= i < pieces.filter(non_empty()).len() ==> #[trigger] pieces.filter(non_empty())[i]
                == key),
    decreases pieces.len(),
{
    reveal(Seq::filter);
    if pieces.len() > 0 {
        let head = pieces.drop_last();
        filters_by_count(head, key);
        let old = head.filter(non_empty());
        let new = pieces.filter(non_empty());
        if pieces.last().len() > 0 {
            assert(new == old.push(pieces.last()));
            assert(new[old.len() as int] == pieces.last());
            assert(forall|i: int| 0 <= i < old.len() ==> new[i] == #[trigger] old[i]);
            assert((forall|i: int| 0 <= i < new.len() ==> #[trigger] new[i] == key) <==> (
            pieces.last() == key && forall|i: int| 0 <= i < old.len() ==> #[trigger] old[i] == key));
        } else {
            assert(new == old);
        }
    }
}

/// A row's entry counts are equal for one key and for all exactly where no
/// other data item owns the row.
pub proof fn sole_owner_iff_counts_agree(raw: Option<Seq<char>>, key: Seq<char>)
    requires
        key.len() > 0,
    ensures
        occurrences(raw, key) == entries_opt(raw).len() <==> (forall|i: int|
            0 <= i < entries_opt(raw).len() ==> #[trigger] entries_opt(raw)[i] == key),
{
    match raw {
        Some(r) => {
            filters_by_count(split_char_of(r, '|'), key);
        },
        None => {},
    }
}

} // verus!
