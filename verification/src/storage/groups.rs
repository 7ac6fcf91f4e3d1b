//! Items grouped under names, the names in ascending order.

use vstd::prelude::*;
use vstd::string::*;

use crate::text::{chars_of, owned, same};

verus! {

/// `a` comes before `b`: at the first place where they differ it has the lesser
/// character, or it ends there.
pub open spec fn before(a: Seq<char>, b: Seq<char>) -> bool
    decreases a.len(),
{
    if b.len() == 0 {
        false
    } else if a.len() == 0 {
        true
    } else if a[0] == b[0] {
        before(a.skip(1), b.skip(1))
    } else {
        a[0] < b[0]
    }
}

/// Of two different texts one comes before the other, and not both.
pub proof fn before_is_total(a: Seq<char>, b: Seq<char>)
    ensures
        a != b ==> before(a, b) || before(b, a),
        !(before(a, b) && before(b, a)),
        !before(a, a),
    decreases a.len(),
{
    if a.len() > 0 && b.len() > 0 && a[0] == b[0] {
        before_is_total(a.skip(1), b.skip(1));
        if a.skip(1) == b.skip(1) {
            assert(a =~= seq![a[0]] + a.skip(1));
            assert(b =~= seq![b[0]] + b.skip(1));
        }
    }
    if a.len() == 0 && b.len() == 0 {
        assert(a =~= b);
    }
    if a.len() > 0 {
        before_is_irreflexive(a);
    }
}

proof fn before_is_irreflexive(a: Seq<char>)
    ensures
        !before(a, a),
    decreases a.len(),
{
    if a.len() > 0 {
        before_is_irreflexive(a.skip(1));
    }
}

/// What comes before something that comes before a third comes before the third.
pub proof fn before_is_transitive(a: Seq<char>, b: Seq<char>, c: Seq<char>)
    requires
        before(a, b),
        before(b, c),
    ensures
        before(a, c),
    decreases a.len(),
{
    if a.len() > 0 && a[0] == b[0] && b[0] == c[0] {
        before_is_transitive(a.skip(1), b.skip(1), c.skip(1));
    }
}

/// Whether `a` comes before `b`.
pub fn is_before(a: &str, b: &str) -> (r: bool)
    ensures
        r == before(a@, b@),
{
    let x = chars_of(a);
    let y = chars_of(b);
    let n: usize = x.len();
    let mut i: usize = 0;
    assert(x@.skip(0) =~= a@);
    assert(y@.skip(0) =~= b@);
    while i < n && i < y.len()
        invariant
            i <= n,
            n == x@.len(),
            i <= y@.len(),
            before(a@, b@) == before(x@.skip(i as int), y@.skip(i as int)),
        decreases n - i,
    {
        let ghost p = x@.skip(i as int);
        let ghost q = y@.skip(i as int);
        assert(p[0] == x@[i as int] && q[0] == y@[i as int]);
        assert(p.skip(1) =~= x@.skip(i + 1));
        assert(q.skip(1) =~= y@.skip(i + 1));
        if x[i] != y[i] {
            return x[i] < y[i];
        }
        i += 1;
    }
    i < y.len()
}

/// Names with the items under each.
pub struct Groups<T> {
    entries: Vec<(String, Vec<T>)>,
}

/// The items under a name; none where the name is not there.
pub open spec fn items_under<T>(groups: Map<Seq<char>, Seq<T>>, name: Seq<char>) -> Seq<T> {
    if groups.contains_key(name) {
        groups[name]
    } else {
        Seq::empty()
    }
}

/// The groups with one more item under a name.
pub open spec fn with_item<T>(
    groups: Map<Seq<char>, Seq<T>>,
    name: Seq<char>,
    item: T,
) -> Map<Seq<char>, Seq<T>> {
    groups.insert(name, items_under(groups, name).push(item))
}

/// The entries as a map.
pub open spec fn entry_map<T>(entries: Seq<(String, Vec<T>)>) -> Map<Seq<char>, Seq<T>>
    decreases entries.len(),
{
    if entries.len() == 0 {
        Map::empty()
    } else {
        entry_map(entries.drop_last()).insert(entries.last().0@, entries.last().1@)
    }
}

/// The names of the entries ascend.
pub open spec fn ascending<T>(entries: Seq<(String, Vec<T>)>) -> bool {
    forall|i: int, j: int|
        #![trigger entries[i], entries[j]]
        0 <= i < j < entries.len() ==> before(entries[i].0@, entries[j].0@)
}

proof fn entry_map_members<T>(entries: Seq<(String, Vec<T>)>)
    requires
        ascending(entries),
    ensures
        forall|i: int|
            0 <= i < entries.len() ==> entry_map(entries).contains_key((#[trigger] entries[i]).0@)
                && entry_map(entries)[entries[i].0@] == entries[i].1@,
        forall|name: Seq<char>| #[trigger]
            entry_map(entries).contains_key(name) ==> exists|i: int|
                0 <= i < entries.len() && (#[trigger] entries[i]).0@ == name,
    decreases entries.len(),
{
    if entries.len() > 0 {
        let head = entries.drop_last();
        assert(ascending(head)) by {
            assert forall|i: int, j: int|
                #![trigger head[i], head[j]]
                0 <= i < j < head.len() implies before(head[i].0@, head[j].0@) by {
                assert(head[i] == entries[i] && head[j] == entries[j]);
            }
        }
        entry_map_members(head);
        let last = entries.len() - 1;
        assert forall|i: int| 0 <= i < entries.len() implies entry_map(entries).contains_key(
            (#[trigger] entries[i]).0@,
        ) && entry_map(entries)[entries[i].0@] == entries[i].1@ by {
            if i < last {
                assert(head[i] == entries[i]);
                before_is_total(entries[i].0@, entries[last].0@);
            }
        }
        assert forall|name: Seq<char>| #[trigger]
            entry_map(entries).contains_key(name) implies exists|i: int|
            0 <= i < entries.len() && (#[trigger] entries[i]).0@ == name by {
            if name == entries[last].0@ {
                assert(entries[last].0@ == name);
            } else {
                assert(entry_map(head).contains_key(name));
                let i = choose|i: int| 0 <= i < head.len() && (#[trigger] head[i]).0@ == name;
                assert(entries[i].0@ == name);
            }
        }
    }
}

/// Ascending entries are the map with just their members.
proof fn same_members<T>(entries: Seq<(String, Vec<T>)>, groups: Map<Seq<char>, Seq<T>>)
    requires
        ascending(entries),
        forall|i: int|
            0 <= i < entries.len() ==> groups.contains_key((#[trigger] entries[i]).0@)
                && groups[entries[i].0@] == entries[i].1@,
        forall|name: Seq<char>| #[trigger]
            groups.contains_key(name) ==> exists|i: int|
                0 <= i < entries.len() && (#[trigger] entries[i]).0@ == name,
    ensures
        entry_map(entries) == groups,
{
    entry_map_members(entries);
    let made = entry_map(entries);
    assert forall|name: Seq<char>| #[trigger] made.contains_key(name) == groups.contains_key(
        name,
    ) by {
        if made.contains_key(name) {
            let i = choose|i: int| 0 <= i < entries.len() && (#[trigger] entries[i]).0@ == name;
            assert(groups.contains_key(entries[i].0@));
        }
        if groups.contains_key(name) {
            let i = choose|i: int| 0 <= i < entries.len() && (#[trigger] entries[i]).0@ == name;
            assert(made.contains_key(entries[i].0@));
        }
    }
    assert forall|name: Seq<char>| made.contains_key(name) implies #[trigger] made[name]
        == groups[name] by {
        let i = choose|i: int| 0 <= i < entries.len() && (#[trigger] entries[i]).0@ == name;
        assert(made[entries[i].0@] == entries[i].1@);
    }
    assert(made =~= groups);
}

impl<T> Groups<T> {
    pub closed spec fn view(&self) -> Map<Seq<char>, Seq<T>> {
        entry_map(self.entries@)
    }

    /// The names ascend.
    pub closed spec fn valid(&self) -> bool {
        ascending(self.entries@)
    }

    /// No groups.
    pub fn new() -> (r: Groups<T>)
        ensures
            r.valid(),
            r@ == Map::<Seq<char>, Seq<T>>::empty(),
    {
        Groups { entries: Vec::new() }
    }

    /// Puts one more item under a name.
    pub fn add_item(&mut self, name: &str, item: T)
        requires
            old(self).valid(),
        ensures
            final(self).valid(),
            final(self)@ == with_item(old(self)@, name@, item),
    {
        let ghost all = self.entries@;
        proof {
            entry_map_members(all);
        }
        let mut i: usize = 0;
        while i < self.entries.len() && is_before(self.entries[i].0.as_str(), name)
            invariant
                i <= self.entries@.len(),
                self.entries@ == all,
                forall|j: int| 0 <= j < i ==> before((#[trigger] all[j]).0@, name@),
            decreases self.entries@.len() - i,
        {
            i += 1;
        }
        if i < self.entries.len() && same(self.entries[i].0.as_str(), name) {
            let (key, mut items) = self.entries.remove(i);
            let ghost had = items@;
            items.push(item);
            let ghost now = (key, items);
            self.entries.insert(i, (key, items));
            proof {
                assert(self.entries@ =~= all.update(i as int, now));
                let after = self.entries@;
                assert forall|a: int, b: int|
                    #![trigger after[a], after[b]]
                    0 <= a < b < after.len() implies before(after[a].0@, after[b].0@) by {
                    assert(before(all[a].0@, all[b].0@));
                }
                let groups = with_item(entry_map(all), name@, item);
                assert forall|n: Seq<char>| #[trigger] groups.contains_key(n) implies exists|k: int|
                    0 <= k < after.len() && (#[trigger] after[k]).0@ == n by {
                    if n == name@ {
                        assert(after[i as int].0@ == n);
                    } else {
                        assert(entry_map(all).contains_key(n));
                        let k = choose|k: int| 0 <= k < all.len() && (#[trigger] all[k]).0@ == n;
                        assert(after[k].0@ == n);
                    }
                }
                same_members(after, groups);
            }
        } else {
            let mut items: Vec<T> = Vec::new();
            items.push(item);
            let key = owned(name);
            let ghost entry = (key, items);
            self.entries.insert(i, (key, items));
            proof {
                let after = self.entries@;
                assert(after =~= all.insert(i as int, entry));
                assert(items@ =~= seq![item]);
                assert forall|j: int| i <= j < all.len() implies before(
                    name@,
                    (#[trigger] all[j]).0@,
                ) by {
                    before_is_total(all[i as int].0@, name@);
                    if i < j {
                        assert(before(all[i as int].0@, all[j].0@));
                        before_is_transitive(name@, all[i as int].0@, all[j].0@);
                    }
                }
                assert forall|a: int, b: int|
                    #![trigger after[a], after[b]]
                    0 <= a < b < after.len() implies before(after[a].0@, after[b].0@) by {
                    let x = if a < i { all[a] } else if a == i { entry } else { all[a - 1] };
                    let y = if b < i { all[b] } else if b == i { entry } else { all[b - 1] };
                    assert(after[a] == x);
                    assert(after[b] == y);
                }
                assert(!entry_map(all).contains_key(name@)) by {
                    if entry_map(all).contains_key(name@) {
                        let j = choose|j: int|
                            0 <= j < all.len() && (#[trigger] all[j]).0@ == name@;
                        before_is_total(all[j].0@, name@);
                    }
                }
                let groups = with_item(entry_map(all), name@, item);
                assert forall|n: Seq<char>| #[trigger] groups.contains_key(n) implies exists|k: int|
                    0 <= k < after.len() && (#[trigger] after[k]).0@ == n by {
                    if n == name@ {
                        assert(after[i as int].0@ == n);
                    } else {
                        assert(entry_map(all).contains_key(n));
                        let k = choose|k: int| 0 <= k < all.len() && (#[trigger] all[k]).0@ == n;
                        let m = if k < i { k } else { k + 1 };
                        assert(after[m].0@ == n);
                    }
                }
                same_members(after, groups);
            }
        }
    }

    /// The groups, ascending by name.
    pub fn into_entries(self) -> (r: Vec<(String, Vec<T>)>)
        requires
            self.valid(),
        ensures
            ascending(r@),
            entry_map(r@) == self@,
    {
        self.entries
    }
}

} // verus!
