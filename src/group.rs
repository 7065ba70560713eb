//! Splitting keyed pairs by key: the values of each key, in their order.
use vstd::prelude::*;

verus! {

/// The values of `pairs` whose key is `key`, in order.
pub open spec fn values_for<V>(pairs: Seq<(String, V)>, key: Seq<char>) -> Seq<V>
    decreases pairs.len(),
{
    if pairs.len() == 0 {
        seq![]
    } else {
        let rest = values_for(pairs.drop_last(), key);
        if pairs.last().0@ == key {
            rest.push(pairs.last().1)
        } else {
            rest
        }
    }
}

/// The view of a grouping: each key with its values.
pub open spec fn groups_view<V>(g: Seq<(String, Vec<V>)>) -> Seq<(String, Seq<V>)> {
    g.map_values(|p: (String, Vec<V>)| (p.0, p.1@))
}

/// `g` splits `pairs` by key: one group per key that occurs, keys pairwise
/// distinct, and each group holds that key's values in order.
pub open spec fn is_grouping<V>(pairs: Seq<(String, V)>, g: Seq<(String, Seq<V>)>) -> bool {
    &&& forall|i: int, j: int| 0 <= i < j < g.len() ==> g[i].0@ != g[j].0@
    &&& forall|i: int|
        0 <= i < g.len() ==> g[i].1 == values_for(pairs, g[i].0@) && g[i].1.len() > 0
    &&& forall|k: int|
        0 <= k < pairs.len() ==> exists|i: int|
            0 <= i < g.len() && (#[trigger] g[i]).0@ == (#[trigger] pairs[k]).0@
}

/// A key that no pair names has no values.
pub proof fn lemma_values_for_absent<V>(pairs: Seq<(String, V)>, key: Seq<char>)
    requires
        forall|k: int| 0 <= k < pairs.len() ==> pairs[k].0@ != key,
    ensures
        values_for(pairs, key) == Seq::<V>::empty(),
    decreases pairs.len(),
{
    if pairs.len() > 0 {
        lemma_values_for_absent(pairs.drop_last(), key);
    }
}

/// The number of values over all groups.
pub open spec fn total_len<V>(g: Seq<(String, Seq<V>)>) -> nat
    decreases g.len(),
{
    if g.len() == 0 {
        0
    } else {
        total_len(g.drop_last()) + g.last().1.len()
    }
}

/// The number of values of `pairs` under each of `names`, summed.
pub open spec fn sum_counts<V>(pairs: Seq<(String, V)>, names: Seq<Seq<char>>) -> nat
    decreases names.len(),
{
    if names.len() == 0 {
        0
    } else {
        sum_counts(pairs, names.drop_last()) + values_for(pairs, names.last()).len()
    }
}

/// How often `key` occurs in `names`.
pub open spec fn occurrences(names: Seq<Seq<char>>, key: Seq<char>) -> nat
    decreases names.len(),
{
    if names.len() == 0 {
        0
    } else {
        occurrences(names.drop_last(), key) + if names.last() == key {
            1nat
        } else {
            0nat
        }
    }
}

proof fn lemma_total_is_sum<V>(pairs: Seq<(String, V)>, g: Seq<(String, Seq<V>)>)
    requires
        forall|i: int| 0 <= i < g.len() ==> g[i].1 == values_for(pairs, g[i].0@),
    ensures
        total_len(g) == sum_counts(pairs, g.map_values(|p: (String, Seq<V>)| p.0@)),
    decreases g.len(),
{
    let names = g.map_values(|p: (String, Seq<V>)| p.0@);
    if g.len() > 0 {
        let pre = g.drop_last();
        lemma_total_is_sum(pairs, pre);
        assert(names.drop_last() =~= pre.map_values(|p: (String, Seq<V>)| p.0@));
        assert(g.last().1 == values_for(pairs, g.last().0@));
    }
}

proof fn lemma_sum_counts_push<V>(pre: Seq<(String, V)>, e: (String, V), names: Seq<Seq<char>>)
    ensures
        sum_counts(pre.push(e), names) == sum_counts(pre, names) + occurrences(names, e.0@),
    decreases names.len(),
{
    let pairs = pre.push(e);
    if names.len() > 0 {
        lemma_sum_counts_push(pre, e, names.drop_last());
        assert(pairs.drop_last() =~= pre);
    }
}

proof fn lemma_occurs_once(names: Seq<Seq<char>>, key: Seq<char>)
    requires
        names.no_duplicates(),
        names.contains(key),
    ensures
        occurrences(names, key) == 1,
    decreases names.len(),
{
    let pre = names.drop_last();
    if names.last() == key {
        assert forall|i: int| 0 <= i < pre.len() implies pre[i] != key by {
            assert(names[i] == pre[i]);
        }
        lemma_occurs_none(pre, key);
    } else {
        let i = choose|i: int| 0 <= i < names.len() && names[i] == key;
        assert(pre[i] == key);
        lemma_occurs_once(pre, key);
    }
}

proof fn lemma_occurs_none(names: Seq<Seq<char>>, key: Seq<char>)
    requires
        forall|i: int| 0 <= i < names.len() ==> names[i] != key,
    ensures
        occurrences(names, key) == 0,
    decreases names.len(),
{
    if names.len() > 0 {
        lemma_occurs_none(names.drop_last(), key);
    }
}

proof fn lemma_sum_counts_covers<V>(pairs: Seq<(String, V)>, names: Seq<Seq<char>>)
    requires
        names.no_duplicates(),
        forall|k: int| 0 <= k < pairs.len() ==> names.contains(#[trigger] pairs[k].0@),
    ensures
        sum_counts(pairs, names) == pairs.len(),
    decreases pairs.len(),
{
    if pairs.len() == 0 {
        lemma_sum_counts_empty(pairs, names);
    } else {
        let pre = pairs.drop_last();
        let e = pairs.last();
        assert(pre.push(e) =~= pairs);
        assert forall|k: int| 0 <= k < pre.len() implies names.contains(#[trigger] pre[k].0@) by {
            assert(pairs[k] == pre[k]);
        }
        lemma_sum_counts_covers(pre, names);
        lemma_sum_counts_push(pre, e, names);
        assert(pairs[pairs.len() - 1] == e);
        lemma_occurs_once(names, e.0@);
    }
}

proof fn lemma_sum_counts_empty<V>(pairs: Seq<(String, V)>, names: Seq<Seq<char>>)
    requires
        pairs.len() == 0,
    ensures
        sum_counts(pairs, names) == 0,
    decreases names.len(),
{
    if names.len() > 0 {
        lemma_sum_counts_empty(pairs, names.drop_last());
    }
}

/// A grouping holds each pair exactly once: its groups together hold as
/// many values as there are pairs, and each group holds all the values of
/// its key.
pub proof fn lemma_grouping_keeps_every_pair_once<V>(
    pairs: Seq<(String, V)>,
    g: Seq<(String, Seq<V>)>,
)
    requires
        is_grouping(pairs, g),
    ensures
        total_len(g) == pairs.len(),
{
    let names = g.map_values(|p: (String, Seq<V>)| p.0@);
    lemma_total_is_sum(pairs, g);
    assert(names.no_duplicates()) by {
        assert forall|i: int, j: int| 0 <= i < names.len() && 0 <= j < names.len() && i != j implies names[i]
            != names[j] by {
            if i < j {
                assert(g[i].0@ != g[j].0@);
            } else {
                assert(g[j].0@ != g[i].0@);
            }
        }
    }
    assert forall|k: int| 0 <= k < pairs.len() implies names.contains(#[trigger] pairs[k].0@) by {
        let i = choose|i: int| 0 <= i < g.len() && (#[trigger] g[i]).0@ == pairs[k].0@;
        assert(names[i] == pairs[k].0@);
    }
    lemma_sum_counts_covers(pairs, names);
}

/// Groups `pairs` by key, keeping the order in which keys first appear.
pub fn group_by_key<V>(pairs: Vec<(String, V)>) -> (r: Vec<(String, Vec<V>)>)
    ensures
        is_grouping(pairs@, groups_view(r@)),
{
    let ghost all = pairs@;
    let mut rest = pairs;
    let mut groups: Vec<(String, Vec<V>)> = Vec::new();
    let ghost mut k: int = 0;
    while rest.len() > 0
        invariant
            0 <= k <= all.len(),
            rest@ == all.subrange(k, all.len() as int),
            is_grouping(all.subrange(0, k), groups_view(groups@)),
        decreases rest.len(),
    {
        let ghost pre = all.subrange(0, k);
        let ghost old_groups = groups_view(groups@);
        let (idx, doc) = rest.remove(0);
        let ghost next = all.subrange(0, k + 1);
        assert(next.drop_last() =~= pre);
        assert(next.last() == all[k]);
        assert(all[k] == (idx, doc));
        let mut j: usize = 0;
        let mut found = false;
        while j < groups.len()
            invariant_except_break
                !found,
            invariant
                j <= groups.len(),
                forall|i: int| 0 <= i < j ==> groups@[i].0@ != idx@,
            ensures
                found ==> j < groups.len() && groups@[j as int].0@ == idx@,
                !found ==> forall|i: int| 0 <= i < groups.len() ==> groups@[i].0@ != idx@,
            decreases groups.len() - j,
        {
            if groups[j].0 == idx {
                found = true;
                break;
            }
            j = j + 1;
        }
        if found {
            let ghost old_vec = groups@;
            let (name, mut docs) = groups.remove(j);
            docs.push(doc);
            let ghost entry = (name, docs);
            groups.insert(j, (name, docs));
            assert(groups@ =~= old_vec.update(j as int, entry));
            let ghost g = groups_view(groups@);
            assert(g =~= old_groups.update(
                j as int,
                (old_groups[j as int].0, old_groups[j as int].1.push(doc)),
            ));
            assert forall|i: int| 0 <= i < g.len() implies g[i].1 == values_for(next, g[i].0@)
                && g[i].1.len() > 0 by {
                if i != j {
                    assert(g[i] == old_groups[i]);
                }
            }
            assert forall|q: int| 0 <= q < next.len() implies exists|i: int|
                0 <= i < g.len() && (#[trigger] g[i]).0@ == (#[trigger] next[q]).0@ by {
                if q < k {
                    assert(next[q] == pre[q]);
                    let i = choose|i: int|
                        0 <= i < old_groups.len() && old_groups[i].0@ == pre[q].0@;
                    assert(g[i].0 == old_groups[i].0);
                } else {
                    assert(g[j as int].0@ == next[q].0@);
                }
            }
        } else {
            assert(forall|i: int| 0 <= i < old_groups.len() ==> old_groups[i].0@ != idx@);
            let ghost one = Seq::<V>::empty().push(doc);
            proof {
                lemma_values_for_absent(pre, idx@);
            }
            let mut docs: Vec<V> = Vec::new();
            docs.push(doc);
            groups.push((idx, docs));
            let ghost g = groups_view(groups@);
            assert(g =~= old_groups.push((idx, one)));
            assert forall|i: int| 0 <= i < g.len() implies g[i].1 == values_for(next, g[i].0@)
                && g[i].1.len() > 0 by {
                if i < old_groups.len() {
                    assert(g[i] == old_groups[i]);
                } else {
                    assert(values_for(next, idx@) =~= one);
                }
            }
            assert forall|q: int| 0 <= q < next.len() implies exists|i: int|
                0 <= i < g.len() && (#[trigger] g[i]).0@ == (#[trigger] next[q]).0@ by {
                if q < k {
                    assert(next[q] == pre[q]);
                    let i = choose|i: int|
                        0 <= i < old_groups.len() && old_groups[i].0@ == pre[q].0@;
                    assert(g[i] == old_groups[i]);
                } else {
                    assert(g[old_groups.len() as int].0@ == next[q].0@);
                }
            }
        }
        proof {
            k = k + 1;
        }
        assert(rest@ =~= all.subrange(k, all.len() as int));
    }
    assert(all.subrange(0, k) =~= all);
    groups
}

} // verus!
