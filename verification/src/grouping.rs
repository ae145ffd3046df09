//! Grouping paths by a key, be it a size or a hash.
//!
//! Groups come in the order in which their keys are first met, and the
//! paths of a group in the order in which they were met.

use vstd::prelude::*;

verus! {

/// A list of paths as plain byte strings.
pub open spec fn views(paths: Seq<Vec<u8>>) -> Seq<Seq<u8>> {
    Seq::new(paths.len(), |i: int| paths[i]@)
}

/// The paths that go with `key`, in order.
pub open spec fn members<K>(items: Seq<(K, Seq<u8>)>, key: K) -> Seq<Seq<u8>>
    decreases items.len(),
{
    if items.len() == 0 {
        Seq::empty()
    } else if items.last().0 == key {
        members(items.drop_last(), key).push(items.last().1)
    } else {
        members(items.drop_last(), key)
    }
}

/// The distinct keys, each at the place where it is first met.
pub open spec fn keys_in_order<K>(items: Seq<(K, Seq<u8>)>) -> Seq<K>
    decreases items.len(),
{
    if items.len() == 0 {
        Seq::empty()
    } else if keys_in_order(items.drop_last()).contains(items.last().0) {
        keys_in_order(items.drop_last())
    } else {
        keys_in_order(items.drop_last()).push(items.last().0)
    }
}

/// The groups: one per distinct key, each with all the paths of its key.
pub open spec fn grouped<K>(items: Seq<(K, Seq<u8>)>) -> Seq<(K, Seq<Seq<u8>>)> {
    let keys = keys_in_order(items);
    Seq::new(keys.len(), |i: int| (keys[i], members(items, keys[i])))
}

/// The path lists of the groups that hold more than one path: only those
/// can contain duplicates.
pub open spec fn crowded<K>(groups: Seq<(K, Seq<Seq<u8>>)>) -> Seq<Seq<Seq<u8>>>
    decreases groups.len(),
{
    if groups.len() == 0 {
        Seq::empty()
    } else if groups.last().1.len() > 1 {
        crowded(groups.drop_last()).push(groups.last().1)
    } else {
        crowded(groups.drop_last())
    }
}

/// A list of path lists as plain values.
pub open spec fn list_views(lists: Seq<Vec<Vec<u8>>>) -> Seq<Seq<Seq<u8>>> {
    Seq::new(lists.len(), |i: int| views(lists[i]@))
}

/// The number of paths in all groups together.
pub open spec fn total_paths<K>(groups: Seq<(K, Seq<Seq<u8>>)>) -> nat
    decreases groups.len(),
{
    if groups.len() == 0 {
        0
    } else {
        total_paths(groups.drop_last()) + groups.last().1.len()
    }
}

/// No key is listed twice, and the listed keys are those of the items.
pub proof fn lemma_keys_in_order<K>(items: Seq<(K, Seq<u8>)>)
    ensures
        keys_in_order(items).no_duplicates(),
        forall|key: K|
            keys_in_order(items).contains(key) <==> exists|i: int|
                0 <= i < items.len() && (#[trigger] items[i]).0 == key,
    decreases items.len(),
{
    if items.len() > 0 {
        let front = items.drop_last();
        let last = items.last();
        lemma_keys_in_order(front);
        let seen = keys_in_order(front);
        assert forall|key: K| keys_in_order(items).contains(key) <==> exists|i: int|
            0 <= i < items.len() && (#[trigger] items[i]).0 == key by {
            if keys_in_order(items).contains(key) {
                if seen.contains(key) {
                    let i = choose|i: int| 0 <= i < front.len() && (#[trigger] front[i]).0 == key;
                    assert(items[i].0 == key);
                } else {
                    let j = choose|j: int|
                        0 <= j < keys_in_order(items).len() && keys_in_order(items)[j] == key;
                    assert(key == last.0);
                    assert(items[items.len() - 1].0 == key);
                }
            }
            if exists|i: int| 0 <= i < items.len() && (#[trigger] items[i]).0 == key {
                let i = choose|i: int| 0 <= i < items.len() && (#[trigger] items[i]).0 == key;
                if i < front.len() {
                    assert(front[i].0 == key);
                    assert(seen.contains(key));
                    let j = choose|j: int| 0 <= j < seen.len() && seen[j] == key;
                    assert(keys_in_order(items)[j] == key);
                } else {
                    assert(key == last.0);
                    if !seen.contains(key) {
                        assert(keys_in_order(items)[seen.len() as int] == key);
                    } else {
                        let j = choose|j: int| 0 <= j < seen.len() && seen[j] == key;
                        assert(keys_in_order(items)[j] == key);
                    }
                }
            }
        }
    }
}

/// A key that is not listed has no paths; a listed key has at least one.
pub proof fn lemma_members_of_key<K>(items: Seq<(K, Seq<u8>)>, key: K)
    ensures
        keys_in_order(items).contains(key) <==> members(items, key).len() > 0,
        members(items, key).len() <= items.len(),
    decreases items.len(),
{
    if items.len() > 0 {
        let front = items.drop_last();
        lemma_members_of_key(front, key);
        let seen = keys_in_order(front);
        if seen.contains(key) {
            let j = choose|j: int| 0 <= j < seen.len() && seen[j] == key;
            assert(keys_in_order(items)[j] == key);
        } else if items.last().0 == key {
            assert(keys_in_order(items)[seen.len() as int] == key);
        } else {
            if keys_in_order(items).contains(key) {
                let j = choose|j: int|
                    0 <= j < keys_in_order(items).len() && keys_in_order(items)[j] == key;
                assert(false);
            }
        }
    }
}

/// Grouping loses no path: every item's path is among the paths of the
/// item's key, and that key is listed. So paths with the same key are always
/// found in the same group.
pub proof fn lemma_every_path_grouped<K>(items: Seq<(K, Seq<u8>)>, i: int)
    requires
        0 <= i < items.len(),
    ensures
        keys_in_order(items).contains(items[i].0),
        members(items, items[i].0).contains(items[i].1),
    decreases items.len(),
{
    lemma_keys_in_order(items);
    let front = items.drop_last();
    let key = items[i].0;
    if i < items.len() - 1 {
        lemma_every_path_grouped(front, i);
        assert(front[i] == items[i]);
        let at = choose|at: int|
            0 <= at < members(front, key).len() && members(front, key)[at] == items[i].1;
        assert(members(items, key)[at] == items[i].1);
    } else {
        assert(members(items, key) == members(front, key).push(items[i].1));
        assert(members(items, key)[members(front, key).len() as int] == items[i].1);
    }
}

/// Grouping invents no path: every path of a key's group comes from an item
/// with that key.
pub proof fn lemma_members_come_from_items<K>(items: Seq<(K, Seq<u8>)>, key: K, at: int)
    requires
        0 <= at < members(items, key).len(),
    ensures
        exists|i: int| 0 <= i < items.len() && #[trigger] items[i] == (key, members(items, key)[at]),
    decreases items.len(),
{
    if items.len() > 0 {
        let front = items.drop_last();
        if items.last().0 == key && at == members(front, key).len() {
            assert(items[items.len() - 1] == (key, members(items, key)[at]));
        } else {
            lemma_members_come_from_items(front, key, at);
            let i = choose|i: int|
                0 <= i < front.len() && #[trigger] front[i] == (key, members(front, key)[at]);
            assert(items[i] == front[i]);
        }
    }
}

/// How the groups change when one more item is met: the item's path joins
/// the group of its key, or opens a new group at the end.
pub proof fn lemma_grouped_push<K>(items: Seq<(K, Seq<u8>)>, item: (K, Seq<u8>))
    ensures
        keys_in_order(items).contains(item.0) ==> {
            let at = keys_in_order(items).index_of(item.0);
            &&& 0 <= at < grouped(items).len()
            &&& grouped(items.push(item)) == grouped(items).update(
                at,
                (item.0, grouped(items)[at].1.push(item.1)),
            )
        },
        !keys_in_order(items).contains(item.0) ==> grouped(items.push(item)) == grouped(
            items,
        ).push((item.0, seq![item.1])),
{
    let more = items.push(item);
    let keys = keys_in_order(items);
    assert(more.drop_last() =~= items);
    assert(more.last() == item);
    lemma_keys_in_order(items);
    assert forall|key: K| members(more, key) == if key == item.0 {
        members(items, key).push(item.1)
    } else {
        members(items, key)
    } by {}
    if keys.contains(item.0) {
        let at = keys.index_of(item.0);
        assert(keys_in_order(more) == keys);
        assert forall|i: int| 0 <= i < keys.len() && i != at implies keys[i] != item.0 by {}
        assert(grouped(more) =~= grouped(items).update(
            at,
            (item.0, grouped(items)[at].1.push(item.1)),
        ));
    } else {
        lemma_members_of_key(items, item.0);
        assert(members(items, item.0) =~= Seq::<Seq<u8>>::empty());
        assert(members(more, item.0) =~= seq![item.1]);
        assert(keys_in_order(more) == keys.push(item.0));
        assert forall|i: int| 0 <= i < keys.len() implies keys[i] != item.0 by {
            assert(keys.contains(keys[i]));
        }
        assert(grouped(more) =~= grouped(items).push((item.0, seq![item.1])));
    }
}

/// Grouping loses nothing and invents nothing: the groups hold as many
/// paths as there are items.
pub proof fn lemma_grouped_total<K>(items: Seq<(K, Seq<u8>)>)
    ensures
        total_paths(grouped(items)) == items.len(),
    decreases items.len(),
{
    if items.len() == 0 {
        assert(grouped(items) =~= Seq::<(K, Seq<Seq<u8>>)>::empty());
    } else {
        let front = items.drop_last();
        let item = items.last();
        assert(front.push(item) =~= items);
        lemma_grouped_total(front);
        lemma_grouped_push(front, item);
        let groups = grouped(front);
        if keys_in_order(front).contains(item.0) {
            let at = keys_in_order(front).index_of(item.0);
            lemma_total_update(groups, at, (item.0, groups[at].1.push(item.1)));
        } else {
            assert(grouped(items).drop_last() =~= groups);
        }
    }
}

/// Replacing one group changes the total by the change in that group's
/// size.
pub proof fn lemma_total_update<K>(
    groups: Seq<(K, Seq<Seq<u8>>)>,
    at: int,
    group: (K, Seq<Seq<u8>>),
)
    requires
        0 <= at < groups.len(),
    ensures
        total_paths(groups.update(at, group)) == total_paths(groups) - groups[at].1.len()
            + group.1.len(),
    decreases groups.len(),
{
    let updated = groups.update(at, group);
    if at == groups.len() - 1 {
        assert(updated.drop_last() =~= groups.drop_last());
    } else {
        assert(updated.drop_last() =~= groups.drop_last().update(at, group));
        lemma_total_update(groups.drop_last(), at, group);
    }
}

} // verus!
